//! Writing the balance table.

use crate::codec::{append_bytes, BYTES_PER_LENGTH_OFFSET};
use crate::error::DecodeError;
use crate::payload::new_account_balances_ssz::{
    lemma_encoded_len, lemma_roundtrip, spec_decode, spec_encode, well_formed, ADDRESS_LEN,
};
use crate::payload::NewAccountBalances;
use crate::primitives::{pow2_256, FixedBytes, U256};
use crate::table::{distinct_keys, lemma_map_of_len, pairs_of};
use vstd::prelude::*;

verus! {

/// The table does not have a fixed width.
pub fn is_ssz_fixed_len() -> (r: bool)
    ensures
        !r,
{
    false
}

/// What the table occupies in the fixed region of a record: an offset.
pub fn ssz_fixed_len() -> (r: usize)
    ensures
        r == BYTES_PER_LENGTH_OFFSET,
{
    BYTES_PER_LENGTH_OFFSET
}

/// Width of the region that holds the table.
pub fn ssz_bytes_len(new_account_balances: &NewAccountBalances) -> (r: usize)
    ensures
        r == spec_encode(new_account_balances.pairs()).len(),
        r == 52 * new_account_balances.pairs().len(),
{
    as_ssz_bytes(new_account_balances).len()
}

/// Every entry of a table is an address with a balance.
pub proof fn lemma_entries_well_formed(entries: Seq<(FixedBytes<20>, U256)>)
    ensures
        well_formed(pairs_of(entries)),
{
    assert forall|i: int| 0 <= i < entries.len() implies (#[trigger] pairs_of(entries)[i]).0.len()
        == ADDRESS_LEN && pairs_of(entries)[i].1 < pow2_256() by {
        entries[i].1.lemma_value();
    }
}

/// Appends the region that holds the table: its entries, in their order.
pub fn ssz_append(new_account_balances: &NewAccountBalances, buf: &mut Vec<u8>)
    ensures
        final(buf)@ == old(buf)@ + spec_encode(new_account_balances.pairs()),
        well_formed(new_account_balances.pairs()),
        distinct_keys(new_account_balances.pairs()),
{
    let entries = new_account_balances.entries();
    let ghost pairs = new_account_balances.pairs();
    proof {
        lemma_entries_well_formed(entries@);
    }
    let mut i: usize = 0;
    while i < entries.len()
        invariant
            i <= entries@.len(),
            pairs == pairs_of(entries@),
            buf@ == old(buf)@ + spec_encode(pairs.take(i as int)),
        decreases entries@.len() - i,
    {
        let ghost before = buf@;
        append_bytes(buf, entries[i].0.as_slice());
        entries[i].1.append_le_bytes(buf);
        proof {
            let next = pairs.take(i as int + 1);
            assert(next.drop_last() =~= pairs.take(i as int));
            assert(next.last() == pairs[i as int]);
            assert(buf@ =~= old(buf)@ + spec_encode(next));
        }
        i += 1;
    }
    assert(pairs.take(entries@.len() as int) =~= pairs);
}

/// The region that holds the table.
pub fn as_ssz_bytes(new_account_balances: &NewAccountBalances) -> (r: Vec<u8>)
    ensures
        r@ == spec_encode(new_account_balances.pairs()),
        r@.len() == 52 * new_account_balances.pairs().len(),
        r@.len() == 52 * new_account_balances@.len(),
        spec_decode(r@) == Ok::<Map<Seq<u8>, nat>, DecodeError>(new_account_balances@),
{
    let mut buf: Vec<u8> = Vec::new();
    ssz_append(new_account_balances, &mut buf);
    proof {
        assert(buf@ =~= spec_encode(new_account_balances.pairs()));
        lemma_encoded_len(new_account_balances.pairs());
        lemma_roundtrip(new_account_balances.pairs());
        lemma_map_of_len(new_account_balances.pairs());
    }
    buf
}

} // verus!
