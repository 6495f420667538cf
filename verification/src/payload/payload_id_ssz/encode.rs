//! Writing the payload identifier.

use crate::codec::append_bytes;
use crate::error::DecodeError;
use crate::payload::payload_id_ssz::{spec_decode, spec_encode, PAYLOAD_ID_LEN};
use crate::primitives::PayloadId;
use vstd::prelude::*;

verus! {

/// The identifier has a fixed width.
pub fn is_ssz_fixed_len() -> (r: bool)
    ensures
        r,
{
    true
}

/// Width of the identifier.
pub fn ssz_fixed_len() -> (r: usize)
    ensures
        r == PAYLOAD_ID_LEN,
{
    PAYLOAD_ID_LEN
}

/// Width of the bytes that hold the identifier.
pub fn ssz_bytes_len(payload_id: &PayloadId) -> (r: usize)
    ensures
        r == PAYLOAD_ID_LEN,
{
    as_ssz_bytes(payload_id).len()
}

/// Appends the eight bytes of the identifier.
pub fn ssz_append(payload_id: &PayloadId, buf: &mut Vec<u8>)
    ensures
        final(buf)@ == old(buf)@ + spec_encode(payload_id@),
{
    append_bytes(buf, payload_id.0.as_slice());
}

/// The eight bytes of the identifier.
pub fn as_ssz_bytes(payload_id: &PayloadId) -> (r: Vec<u8>)
    ensures
        r@ == spec_encode(payload_id@),
        r@.len() == PAYLOAD_ID_LEN,
        spec_decode(r@) == Ok::<Seq<u8>, DecodeError>(payload_id@),
{
    let mut buf: Vec<u8> = Vec::new();
    ssz_append(payload_id, &mut buf);
    assert(buf@ =~= payload_id@);
    buf
}

} // verus!
