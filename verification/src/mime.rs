//! Which of the MIME types that a clipboard offers is taken.

use vstd::prelude::*;

verus! {

/// Plain text in UTF-8: taken before anything else.
pub open spec fn plain_text() -> Seq<char> {
    "text/plain;charset=utf-8"@
}

/// Taken second.
pub open spec fn jpeg() -> Seq<char> {
    "image/jpeg"@
}

/// Taken third.
pub open spec fn png() -> Seq<char> {
    "image/png"@
}

/// Taken last.
pub open spec fn html() -> Seq<char> {
    "text/html"@
}

/// `wanted` is among `mimes`.
pub open spec fn offered(mimes: Seq<String>, wanted: Seq<char>) -> bool {
    exists|i: int| 0 <= i < mimes.len() && (#[trigger] mimes[i])@ == wanted
}

/// The MIME type to take from `mimes`: plain text in UTF-8 if it is
/// offered, else a JPEG image, else a PNG image, else HTML, else none.
pub open spec fn preferred(mimes: Seq<String>) -> Option<Seq<char>> {
    if offered(mimes, plain_text()) {
        Some(plain_text())
    } else if offered(mimes, jpeg()) {
        Some(jpeg())
    } else if offered(mimes, png()) {
        Some(png())
    } else if offered(mimes, html()) {
        Some(html())
    } else {
        None
    }
}

/// Whether `wanted` is among `mimes`.
fn offers(mimes: &Vec<String>, wanted: &String) -> (found: bool)
    ensures
        found == offered(mimes@, wanted@),
{
    let mut i: usize = 0;
    while i < mimes.len()
        invariant
            i <= mimes@.len(),
            forall|j: int| 0 <= j < i ==> (#[trigger] mimes@[j])@ != wanted@,
        decreases mimes@.len() - i,
    {
        if mimes[i] == *wanted {
            return true;
        }
        i += 1;
    }
    false
}

/// Picks the MIME type to read the clipboard in, out of those it offers.
pub fn resolve_mime_type(mimes: &Vec<String>) -> (r: Option<String>)
    ensures
        match r {
            Some(mime) => preferred(mimes@) == Some(mime@),
            None => preferred(mimes@) is None,
        },
{
    let plain_text = "text/plain;charset=utf-8".to_owned();
    if offers(mimes, &plain_text) {
        return Some(plain_text);
    }
    let jpeg = "image/jpeg".to_owned();
    if offers(mimes, &jpeg) {
        return Some(jpeg);
    }
    let png = "image/png".to_owned();
    if offers(mimes, &png) {
        return Some(png);
    }
    let html = "text/html".to_owned();
    if offers(mimes, &html) {
        return Some(html);
    }
    None
}

} // verus!
