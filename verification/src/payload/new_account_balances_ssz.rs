//! The balance table as a region of fixed-stride entries.
//!
//! Each entry is the 20 bytes of the address followed by the 32 bytes of the
//! balance, least significant byte first. Nothing separates the entries and
//! nothing counts them: the length of the region does.

use crate::error::DecodeError;
use crate::primitives::{lemma_u256_roundtrip, pow2_256, spec_u256_bytes, spec_u256_value};
use crate::table::map_of;
use vstd::prelude::*;

pub mod decode;
pub mod encode;

verus! {

/// Width of an address.
pub const ADDRESS_LEN: usize = 20;

/// Width of a balance.
pub const BALANCE_LEN: usize = 32;

/// Width of an entry: an address and a balance.
pub const ENTRY_LEN: usize = 52;

/// The bytes of one entry.
pub open spec fn spec_entry_bytes(entry: (Seq<u8>, nat)) -> Seq<u8> {
    entry.0 + spec_u256_bytes(entry.1)
}

/// The region that holds `pairs`, in their order.
pub open spec fn spec_encode(pairs: Seq<(Seq<u8>, nat)>) -> Seq<u8>
    decreases pairs.len(),
{
    if pairs.len() == 0 {
        Seq::empty()
    } else {
        spec_encode(pairs.drop_last()) + spec_entry_bytes(pairs.last())
    }
}

/// The `i`-th entry of the region `bytes`.
pub open spec fn spec_entry(bytes: Seq<u8>, i: int) -> (Seq<u8>, nat) {
    (
        bytes.subrange(52 * i, 52 * i + 20),
        spec_u256_value(bytes.subrange(52 * i + 20, 52 * i + 52)),
    )
}

/// The entries of the region `bytes`, in their order.
pub open spec fn spec_entries(bytes: Seq<u8>) -> Seq<(Seq<u8>, nat)> {
    Seq::new(bytes.len() / 52, |i: int| spec_entry(bytes, i))
}

/// The table that the region `bytes` holds. A region that does not end with a
/// whole entry is refused, with the width of what is left over.
pub open spec fn spec_decode(bytes: Seq<u8>) -> Result<Map<Seq<u8>, nat>, DecodeError> {
    if bytes.len() % 52 != 0 {
        Err(
            DecodeError::InvalidByteLength {
                len: (bytes.len() % 52) as usize,
                expected: ENTRY_LEN,
            },
        )
    } else {
        Ok(map_of(spec_entries(bytes)))
    }
}

/// Whether every key is an address and every value a balance.
pub open spec fn well_formed(pairs: Seq<(Seq<u8>, nat)>) -> bool {
    forall|i: int|
        0 <= i < pairs.len() ==> (#[trigger] pairs[i]).0.len() == ADDRESS_LEN && pairs[i].1
            < pow2_256()
}

/// A table of N entries is written as a region of exactly 52 × N bytes; the
/// table without entries as the region without bytes.
pub proof fn lemma_encoded_len(pairs: Seq<(Seq<u8>, nat)>)
    requires
        well_formed(pairs),
    ensures
        spec_encode(pairs).len() == 52 * pairs.len(),
    decreases pairs.len(),
{
    if pairs.len() > 0 {
        let front = pairs.drop_last();
        assert forall|i: int| 0 <= i < front.len() implies (#[trigger] front[i]).0.len()
            == ADDRESS_LEN && front[i].1 < pow2_256() by {
            assert(pairs[i].0.len() == ADDRESS_LEN);
        }
        lemma_encoded_len(front);
        assert(pairs[pairs.len() - 1].0.len() == ADDRESS_LEN);
        lemma_u256_roundtrip(pairs.last().1);
    }
}

/// The entries of a written region are the pairs it was written from.
pub proof fn lemma_entries_of_encoded(pairs: Seq<(Seq<u8>, nat)>)
    requires
        well_formed(pairs),
    ensures
        spec_entries(spec_encode(pairs)) == pairs,
    decreases pairs.len(),
{
    lemma_encoded_len(pairs);
    let bytes = spec_encode(pairs);
    if pairs.len() > 0 {
        let n = pairs.len() - 1;
        let front = pairs.drop_last();
        let head = spec_encode(front);
        assert forall|i: int| 0 <= i < front.len() implies (#[trigger] front[i]).0.len()
            == ADDRESS_LEN && front[i].1 < pow2_256() by {
            assert(pairs[i].0.len() == ADDRESS_LEN);
        }
        lemma_encoded_len(front);
        lemma_entries_of_encoded(front);
        assert(pairs[n].0.len() == ADDRESS_LEN);
        lemma_u256_roundtrip(pairs[n].1);
        assert forall|i: int| 0 <= i < pairs.len() implies spec_entry(bytes, i) == pairs[i] by {
            if i < n {
                assert(spec_entries(head)[i] == front[i]);
                assert(bytes.subrange(52 * i, 52 * i + 20) =~= head.subrange(52 * i, 52 * i + 20));
                assert(bytes.subrange(52 * i + 20, 52 * i + 52) =~= head.subrange(
                    52 * i + 20,
                    52 * i + 52,
                ));
            } else {
                assert(bytes.subrange(52 * n, 52 * n + 20) =~= pairs[n].0);
                assert(bytes.subrange(52 * n + 20, 52 * n + 52) =~= spec_u256_bytes(pairs[n].1));
            }
        }
    }
    assert(spec_entries(bytes) =~= pairs);
}

/// Reading a written region gives back the table, whatever the order in
/// which its entries were written.
pub proof fn lemma_roundtrip(pairs: Seq<(Seq<u8>, nat)>)
    requires
        well_formed(pairs),
    ensures
        spec_decode(spec_encode(pairs)) == Ok::<Map<Seq<u8>, nat>, DecodeError>(map_of(pairs)),
{
    lemma_encoded_len(pairs);
    lemma_entries_of_encoded(pairs);
}

/// A region whose length is not a multiple of 52 is refused.
pub proof fn lemma_stride(bytes: Seq<u8>)
    ensures
        bytes.len() % 52 != 0 <==> spec_decode(bytes) is Err,
{
}

/// The table without entries is written as the region without bytes, which
/// reads as the table without entries.
pub proof fn lemma_empty()
    ensures
        spec_encode(Seq::<(Seq<u8>, nat)>::empty()) == Seq::<u8>::empty(),
        spec_decode(Seq::<u8>::empty()) == Ok::<Map<Seq<u8>, nat>, DecodeError>(Map::empty()),
{
    assert(spec_entries(Seq::<u8>::empty()) =~= Seq::<(Seq<u8>, nat)>::empty());
}

} // verus!
