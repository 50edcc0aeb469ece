//! The transport's value buffer, `rustable::gatt::AttValue`: a byte buffer of
//! fixed capacity that every frame handed to the transport is built in.
//! Its contents are known to the verifier only through [`att_bytes`].

use vstd::prelude::*;

verus! {

/// Number of bytes an `AttValue` can hold.
pub const FRAME_CAPACITY: usize = 512;

#[verifier::external_type_specification]
#[verifier::external_body]
pub struct ExAttValue(rustable::gatt::AttValue);

/// The bytes an `AttValue` holds, in order (what `AttValue::as_slice` gives).
pub uninterp spec fn att_bytes(v: rustable::gatt::AttValue) -> Seq<u8>;

/// Calls `AttValue::default`.
///
/// Trusted: the new value holds no bytes.
#[verifier::external_body]
pub(crate) fn att_empty() -> (v: rustable::gatt::AttValue)
    ensures
        att_bytes(v) == Seq::<u8>::empty(),
{
    rustable::gatt::AttValue::default()
}

/// Calls `AttValue::extend_from_slice`.
///
/// Trusted: `bytes` are appended behind what the value held. The call
/// indexes past the buffer, and panics, when the result would exceed the
/// capacity; the precondition leaves that out.
#[verifier::external_body]
pub(crate) fn att_extend(v: &mut rustable::gatt::AttValue, bytes: &[u8])
    requires
        att_bytes(*old(v)).len() + bytes@.len() <= FRAME_CAPACITY,
    ensures
        att_bytes(*final(v)) == att_bytes(*old(v)) + bytes@,
{
    v.extend_from_slice(bytes)
}

/// Calls `AttValue::from` on a byte slice.
///
/// Trusted: the new value holds exactly `bytes`. The conversion panics on a
/// slice longer than the capacity; the precondition leaves that out.
#[verifier::external_body]
pub(crate) fn att_from_slice(bytes: &[u8]) -> (v: rustable::gatt::AttValue)
    requires
        bytes@.len() <= FRAME_CAPACITY,
    ensures
        att_bytes(v) == bytes@,
{
    rustable::gatt::AttValue::from(bytes)
}

} // verus!
