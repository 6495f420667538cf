//! Writing the receipt table.

use crate::codec::{append_be_length, append_bytes, BYTES_PER_LENGTH_OFFSET};
use crate::error::DecodeError;
use crate::payload::receipts_ssz::{
    lemma_encode_push, lemma_roundtrip, spec_decode, spec_encode, well_formed, HASH_LEN,
};
use crate::payload::Receipts;
use crate::receipt::receipt_text;
use crate::table::pairs_of;
use vstd::prelude::*;

verus! {

/// The table does not have a fixed width.
pub fn is_ssz_fixed_len() -> (r: bool)
    ensures
        !r,
{
    false
}

/// What the table occupies in the fixed region of a record: an offset.
pub fn ssz_fixed_len() -> (r: usize)
    ensures
        r == BYTES_PER_LENGTH_OFFSET,
{
    BYTES_PER_LENGTH_OFFSET
}

/// Width of the region that holds the table.
pub fn ssz_bytes_len(receipts: &Receipts) -> (r: usize)
    ensures
        r == spec_encode(receipts.pairs()).len(),
{
    as_ssz_bytes(receipts).len()
}

/// Appends the region that holds the table: its entries, in their order.
pub fn ssz_append(receipts: &Receipts, buf: &mut Vec<u8>)
    ensures
        final(buf)@ == old(buf)@ + spec_encode(receipts.pairs()),
        well_formed(receipts.pairs()),
{
    let entries = receipts.entries();
    let ghost pairs = receipts.pairs();
    assert(spec_encode(pairs.take(0)) =~= Seq::<u8>::empty());
    let mut i: usize = 0;
    while i < entries.len()
        invariant
            i <= entries@.len(),
            pairs == pairs_of(entries@),
            buf@ == old(buf)@ + spec_encode(pairs.take(i as int)),
            forall|j: int|
                0 <= j < i ==> (#[trigger] pairs[j]).0.len() == HASH_LEN && receipt_text(
                    pairs[j].1,
                ),
        decreases entries@.len() - i,
    {
        let text = entries[i].1.json();
        append_bytes(buf, entries[i].0.as_slice());
        append_be_length(buf, text.len());
        append_bytes(buf, text.as_slice());
        proof {
            lemma_encode_push(pairs.take(i as int), pairs[i as int]);
            assert(pairs.take(i as int + 1) =~= pairs.take(i as int).push(pairs[i as int]));
            assert(buf@ =~= old(buf)@ + spec_encode(pairs.take(i as int + 1)));
        }
        i += 1;
    }
    assert(pairs.take(entries@.len() as int) =~= pairs);
}

/// The region that holds the table.
pub fn as_ssz_bytes(receipts: &Receipts) -> (r: Vec<u8>)
    ensures
        r@ == spec_encode(receipts.pairs()),
        spec_decode(r@) == Ok::<Map<Seq<u8>, Seq<u8>>, DecodeError>(receipts@),
{
    let mut buf: Vec<u8> = Vec::new();
    ssz_append(receipts, &mut buf);
    proof {
        assert(buf@ =~= spec_encode(receipts.pairs()));
        lemma_roundtrip(receipts.pairs());
    }
    buf
}

} // verus!
