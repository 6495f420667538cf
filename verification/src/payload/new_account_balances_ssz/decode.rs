//! Reading the balance table.

use crate::codec::BYTES_PER_LENGTH_OFFSET;
use crate::error::DecodeError;
use crate::payload::new_account_balances_ssz::{
    spec_decode, spec_entries, spec_entry, ADDRESS_LEN, ENTRY_LEN,
};
use crate::payload::NewAccountBalances;
use crate::primitives::{FixedBytes, U256};
use crate::table::{map_of, Table};
use vstd::prelude::*;
use vstd::slice::*;

verus! {

/// The table does not have a fixed width.
pub fn is_ssz_fixed_len() -> (r: bool)
    ensures
        !r,
{
    false
}

/// What the table occupies in the fixed region of a record: an offset.
pub fn ssz_fixed_len() -> (r: usize)
    ensures
        r == BYTES_PER_LENGTH_OFFSET,
{
    BYTES_PER_LENGTH_OFFSET
}

/// Reads the table that the region `bytes` holds. Where an address occurs
/// more than once, its last balance stands.
pub fn from_ssz_bytes(bytes: &[u8]) -> (r: Result<NewAccountBalances, DecodeError>)
    ensures
        match r {
            Ok(table) => spec_decode(bytes@) == Ok::<Map<Seq<u8>, nat>, DecodeError>(table@),
            Err(e) => spec_decode(bytes@) == Err::<Map<Seq<u8>, nat>, DecodeError>(e),
        },
{
    let len = bytes.len();
    if len % ENTRY_LEN != 0 {
        return Err(DecodeError::InvalidByteLength { len: len % ENTRY_LEN, expected: ENTRY_LEN });
    }
    let count = len / ENTRY_LEN;
    let ghost entries = spec_entries(bytes@);
    let mut table: NewAccountBalances = Table::new();
    let mut i: usize = 0;
    while i < count
        invariant
            i <= count,
            len == bytes@.len(),
            len == 52 * count,
            entries == spec_entries(bytes@),
            table@ == map_of(entries.take(i as int)),
        decreases count - i,
    {
        let start = i * ENTRY_LEN;
        let address = FixedBytes::<20>::from_slice(
            slice_subrange(bytes, start, start + ADDRESS_LEN),
        );
        let balance = U256::from_le_slice(
            slice_subrange(bytes, start + ADDRESS_LEN, start + ENTRY_LEN),
        );
        table.insert(address, balance);
        proof {
            let next = entries.take(i as int + 1);
            assert(next.drop_last() =~= entries.take(i as int));
            assert(next.last() == spec_entry(bytes@, i as int));
        }
        i += 1;
    }
    assert(entries.take(count as int) =~= entries);
    Ok(table)
}

} // verus!
