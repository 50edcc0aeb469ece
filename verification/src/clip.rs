//! The payload: bytes, their MIME type and their content hash.

use vstd::prelude::*;
use vstd::utf8::encode_utf8;
use crate::digest::sha256;
use crate::digest::sha256_digest;
use crate::wire::bytes_equal;
use crate::wire::HASH_LEN;

verus! {

/// What a payload is: its MIME type, its content hash and its bytes.
pub struct ClipView {
    pub mime: Seq<char>,
    pub hash: Seq<u8>,
    pub data: Seq<u8>,
}

impl ClipView {
    /// The MIME type as it travels: its UTF-8 encoding.
    pub open spec fn mime_bytes(self) -> Seq<u8> {
        encode_utf8(self.mime)
    }

    /// The hash is the digest of the bytes.
    pub open spec fn hashed(self) -> bool {
        &&& self.hash == sha256_digest(self.data)
        &&& self.hash.len() == HASH_LEN
    }

    /// Payload equality: same MIME type, same length, same hash. Equal
    /// hashes stand in for equal bytes.
    pub open spec fn same_as(self, other: ClipView) -> bool {
        &&& self.mime == other.mime
        &&& self.data.len() == other.data.len()
        &&& self.hash == other.hash
    }
}

/// An immutable payload. The hash is computed once, when the payload is made.
#[derive(Debug)]
pub struct Clip {
    mime: String,
    hash: [u8; 32],
    data: Vec<u8>,
}

impl View for Clip {
    type V = ClipView;

    closed spec fn view(&self) -> ClipView {
        ClipView { mime: self.mime@, hash: self.hash@, data: self.data@ }
    }
}

impl Clip {
    /// Holds of every payload: its hash is the digest of its bytes.
    #[verifier::type_invariant]
    pub open spec fn wf(&self) -> bool {
        self@.hashed()
    }

    /// Makes a payload of `data` with MIME type `mime`, hashing `data`.
    pub fn new(data: Vec<u8>, mime: String) -> (c: Self)
        ensures
            c@.data == data@,
            c@.mime == mime@,
            c@.hashed(),
    {
        let hash = sha256(data.as_slice());
        Clip { hash, data, mime }
    }

    /// The payload's bytes.
    pub fn data(&self) -> (d: &[u8])
        ensures
            d@ == self@.data,
    {
        self.data.as_slice()
    }

    /// The payload's content hash: the digest of its bytes.
    pub fn hash(&self) -> (h: [u8; 32])
        ensures
            h@ == self@.hash,
            self@.hashed(),
    {
        proof {
            use_type_invariant(self);
        }
        self.hash
    }

    /// The payload's MIME type.
    pub fn mime(&self) -> (m: &str)
        ensures
            m@ == self@.mime,
    {
        self.mime.as_str()
    }

    /// The number of bytes in the payload.
    pub fn len(&self) -> (n: usize)
        ensures
            n == self@.data.len(),
    {
        self.data.len()
    }
}

impl Default for Clip {
    /// The empty payload, as plain text in UTF-8.
    fn default() -> (c: Self)
        ensures
            c@.data == Seq::<u8>::empty(),
            c@.mime == "text/plain;charset=utf-8"@,
            c@.hashed(),
    {
        Clip::new(Vec::new(), "text/plain;charset=utf-8".to_owned())
    }
}

impl PartialEq for Clip {
    /// Two payloads are equal if their MIME types, their lengths and their
    /// hashes are. The bytes themselves are not compared.
    fn eq(&self, other: &Clip) -> (same: bool) {
        if self.mime != other.mime {
            return false;
        }
        if self.data.len() != other.data.len() {
            return false;
        }
        bytes_equal(self.hash.as_slice(), other.hash.as_slice())
    }
}

impl vstd::std_specs::cmp::PartialEqSpecImpl for Clip {
    open spec fn obeys_eq_spec() -> bool {
        true
    }

    open spec fn eq_spec(&self, other: &Clip) -> bool {
        self@.same_as(other@)
    }
}

/// Hashing is stable: two payloads made from the same bytes carry the same
/// hash, whatever their MIME types.
pub proof fn lemma_hash_stable(a: ClipView, b: ClipView)
    requires
        a.hashed(),
        b.hashed(),
        a.data == b.data,
    ensures
        a.hash == b.hash,
{
}

} // verus!
