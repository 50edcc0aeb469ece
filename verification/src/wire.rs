//! Byte layout shared by every frame: big-endian 32-bit fields and the
//! reserved offset value.

use vstd::prelude::*;
use vstd::arithmetic::div_mod::lemma_fundamental_div_mod_converse;

verus! {

/// Offset value reserved on the wire for "no position yet".
pub const SENTINEL: u32 = 0xFFFF_FFFF;

/// Length of a content hash in bytes.
pub const HASH_LEN: usize = 32;

/// The four bytes of `x`, most significant first.
pub open spec fn be32(x: u32) -> Seq<u8> {
    seq![
        (x / 0x100_0000) as u8,
        ((x / 0x1_0000) % 0x100) as u8,
        ((x / 0x100) % 0x100) as u8,
        (x % 0x100) as u8,
    ]
}

/// The number whose big-endian bytes are the first four bytes of `s`.
pub open spec fn be32_value(s: Seq<u8>) -> int
    recommends
        s.len() >= 4,
{
    s[0] * 0x100_0000 + s[1] * 0x1_0000 + s[2] * 0x100 + s[3]
}

/// Decoding undoes encoding.
pub proof fn lemma_be32_value_of_be32(x: u32)
    ensures
        be32(x).len() == 4,
        be32_value(be32(x)) == x,
{
    let b0 = x as int / 0x100_0000;
    let b1 = (x as int / 0x1_0000) % 0x100;
    let b2 = (x as int / 0x100) % 0x100;
    let b3 = x as int % 0x100;
    assert(x as int / 0x1_0000 == b0 * 0x100 + b1);
    assert(x as int / 0x100 == (x as int / 0x1_0000) * 0x100 + b2);
    assert(x as int == (x as int / 0x100) * 0x100 + b3);
}

/// Encoding undoes decoding, and a decoded field fits in 32 bits.
pub proof fn lemma_be32_of_be32_value(s: Seq<u8>)
    requires
        s.len() == 4,
    ensures
        0 <= be32_value(s) <= u32::MAX,
        be32(be32_value(s) as u32) == s,
{
    let b0 = s[0] as int;
    let b1 = s[1] as int;
    let b2 = s[2] as int;
    let b3 = s[3] as int;
    let x = be32_value(s);
    lemma_fundamental_div_mod_converse(x, 0x100_0000, b0, b1 * 0x1_0000 + b2 * 0x100 + b3);
    lemma_fundamental_div_mod_converse(x, 0x1_0000, b0 * 0x100 + b1, b2 * 0x100 + b3);
    lemma_fundamental_div_mod_converse(b0 * 0x100 + b1, 0x100, b0, b1);
    lemma_fundamental_div_mod_converse(x, 0x100, b0 * 0x1_0000 + b1 * 0x100 + b2, b3);
    lemma_fundamental_div_mod_converse(b0 * 0x1_0000 + b1 * 0x100 + b2, 0x100, b0 * 0x100 + b1, b2);
    assert(be32(x as u32) =~= s);
}

/// Writes `x` as four bytes, most significant first.
pub fn encode_be32(x: u32) -> (b: [u8; 4])
    ensures
        b@ == be32(x),
{
    let b: [u8; 4] = [
        (x / 0x100_0000) as u8,
        ((x / 0x1_0000) % 0x100) as u8,
        ((x / 0x100) % 0x100) as u8,
        (x % 0x100) as u8,
    ];
    assert(b@ =~= be32(x));
    b
}

/// Reads the big-endian 32-bit field that starts at byte `at` of `data`.
pub fn decode_be32(data: &[u8], at: usize) -> (x: u32)
    requires
        at + 4 <= data@.len(),
    ensures
        x == be32_value(data@.subrange(at as int, at + 4)),
{
    let b0: u32 = data[at] as u32;
    let b1: u32 = data[at + 1] as u32;
    let b2: u32 = data[at + 2] as u32;
    let b3: u32 = data[at + 3] as u32;
    b0 * 0x100_0000 + b1 * 0x1_0000 + b2 * 0x100 + b3
}

/// Whether two byte strings are the same.
pub fn bytes_equal(a: &[u8], b: &[u8]) -> (same: bool)
    ensures
        same == (a@ == b@),
{
    if a.len() != b.len() {
        return false;
    }
    let mut i: usize = 0;
    while i < a.len()
        invariant
            i <= a@.len(),
            a@.len() == b@.len(),
            forall|j: int| 0 <= j < i ==> a@[j] == b@[j],
        decreases a@.len() - i,
    {
        if a[i] != b[i] {
            return false;
        }
        i += 1;
    }
    assert(a@ =~= b@);
    true
}

} // verus!
