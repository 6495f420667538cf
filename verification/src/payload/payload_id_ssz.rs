//! The payload identifier as eight bytes, written as they are.

use crate::error::DecodeError;
use vstd::prelude::*;

pub mod decode;
pub mod encode;

verus! {

/// Width of an identifier.
pub const PAYLOAD_ID_LEN: usize = 8;

/// The bytes that hold the identifier `id`: the identifier itself.
pub open spec fn spec_encode(id: Seq<u8>) -> Seq<u8> {
    id
}

/// The identifier that `bytes` holds: the bytes themselves, if there are eight.
pub open spec fn spec_decode(bytes: Seq<u8>) -> Result<Seq<u8>, DecodeError> {
    if bytes.len() != PAYLOAD_ID_LEN {
        Err(DecodeError::InvalidByteLength { len: bytes.len() as usize, expected: PAYLOAD_ID_LEN })
    } else {
        Ok(bytes)
    }
}

/// Writing an identifier and reading it back gives the identifier, for every
/// one of the 2^64 identifiers.
pub proof fn lemma_roundtrip(id: Seq<u8>)
    requires
        id.len() == PAYLOAD_ID_LEN,
    ensures
        spec_encode(id).len() == PAYLOAD_ID_LEN,
        spec_decode(spec_encode(id)) == Ok::<Seq<u8>, DecodeError>(id),
{
}

} // verus!
