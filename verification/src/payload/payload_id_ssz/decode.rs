//! Reading the payload identifier.

use crate::error::DecodeError;
use crate::payload::payload_id_ssz::{spec_decode, PAYLOAD_ID_LEN};
use crate::primitives::{FixedBytes, PayloadId};
use vstd::prelude::*;

verus! {

/// The identifier has a fixed width.
pub fn is_ssz_fixed_len() -> (r: bool)
    ensures
        r,
{
    true
}

/// Width of the identifier.
pub fn ssz_fixed_len() -> (r: usize)
    ensures
        r == PAYLOAD_ID_LEN,
{
    PAYLOAD_ID_LEN
}

/// Reads the identifier that `bytes` holds: exactly eight bytes, taken as they are.
pub fn from_ssz_bytes(bytes: &[u8]) -> (r: Result<PayloadId, DecodeError>)
    ensures
        match r {
            Ok(id) => spec_decode(bytes@) == Ok::<Seq<u8>, DecodeError>(id@),
            Err(e) => spec_decode(bytes@) == Err::<Seq<u8>, DecodeError>(e),
        },
{
    if bytes.len() != PAYLOAD_ID_LEN {
        return Err(
            DecodeError::InvalidByteLength { len: bytes.len(), expected: PAYLOAD_ID_LEN },
        );
    }
    Ok(PayloadId(FixedBytes::<8>::from_slice(bytes)))
}

} // verus!
