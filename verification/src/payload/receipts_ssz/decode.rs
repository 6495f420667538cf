//! Reading the receipt table.

use crate::codec::{read_be_length, BYTES_PER_LENGTH_OFFSET};
use crate::error::DecodeError;
use crate::payload::receipts_ssz::{
    first_invalid, spec_check_entries, spec_decode, spec_prepend, spec_read_entries,
    ENTRY_HEADER_LEN, HASH_LEN, LENGTH_PREFIX_LEN,
};
use crate::payload::Receipts;
use crate::primitives::FixedBytes;
use crate::receipt::Receipt;
use crate::table::{map_of, pairs_of, Table};
use vstd::prelude::*;
use vstd::slice::*;

verus! {

/// The table does not have a fixed width.
pub fn is_ssz_fixed_len() -> (r: bool)
    ensures
        !r,
{
    false
}

/// What the table occupies in the fixed region of a record: an offset.
pub fn ssz_fixed_len() -> (r: usize)
    ensures
        r == BYTES_PER_LENGTH_OFFSET,
{
    BYTES_PER_LENGTH_OFFSET
}

/// Cuts the region `bytes` into its entries: each a hash and a text, the
/// text not looked into.
pub fn read_entries(bytes: &[u8]) -> (r: Result<Vec<(FixedBytes<32>, Vec<u8>)>, DecodeError>)
    ensures
        match r {
            Ok(entries) => spec_read_entries(bytes@) == Ok::<
                Seq<(Seq<u8>, Seq<u8>)>,
                DecodeError,
            >(pairs_of(entries@)),
            Err(e) => spec_read_entries(bytes@) == Err::<Seq<(Seq<u8>, Seq<u8>)>, DecodeError>(e),
        },
{
    let len = bytes.len();
    let mut entries: Vec<(FixedBytes<32>, Vec<u8>)> = Vec::new();
    let mut offset: usize = 0;
    assert(bytes@.subrange(0, len as int) =~= bytes@);
    assert(pairs_of(entries@) =~= Seq::<(Seq<u8>, Seq<u8>)>::empty());
    assert(spec_read_entries(bytes@) is Ok ==> Seq::<(Seq<u8>, Seq<u8>)>::empty()
        + spec_read_entries(bytes@).unwrap() =~= spec_read_entries(bytes@).unwrap());
    while offset < len
        invariant
            offset <= len,
            len == bytes@.len(),
            spec_read_entries(bytes@) == spec_prepend(
                pairs_of(entries@),
                spec_read_entries(bytes@.subrange(offset as int, len as int)),
            ),
        decreases len - offset,
    {
        let ghost rest = bytes@.subrange(offset as int, len as int);
        let ghost before = pairs_of(entries@);
        let remaining = len - offset;
        if remaining < HASH_LEN {
            return Err(DecodeError::InvalidByteLength { len: remaining, expected: HASH_LEN });
        }
        if remaining < ENTRY_HEADER_LEN {
            return Err(
                DecodeError::InvalidLengthPrefix {
                    len: remaining - HASH_LEN,
                    expected: LENGTH_PREFIX_LEN,
                },
            );
        }
        let text_len = read_be_length(bytes, offset + HASH_LEN);
        assert(rest.subrange(32, 36) =~= bytes@.subrange(offset + 32, offset + 36));
        if remaining - ENTRY_HEADER_LEN < text_len {
            return Err(
                DecodeError::InvalidByteLength {
                    len: remaining - ENTRY_HEADER_LEN,
                    expected: text_len,
                },
            );
        }
        let hash = FixedBytes::<32>::from_slice(slice_subrange(bytes, offset, offset + HASH_LEN));
        let start = offset + ENTRY_HEADER_LEN;
        let text = slice_to_vec(slice_subrange(bytes, start, start + text_len));
        entries.push((hash, text));
        offset = start + text_len;
        proof {
            let entry = (rest.subrange(0, 32), rest.subrange(36, 36 + text_len));
            let tail = spec_read_entries(rest.subrange(36 + text_len, rest.len() as int));
            assert(rest.subrange(0, 32) =~= hash@);
            assert(rest.subrange(36, 36 + text_len) =~= text@);
            assert(rest.subrange(36 + text_len, rest.len() as int) =~= bytes@.subrange(
                offset as int,
                len as int,
            ));
            assert(pairs_of(entries@) =~= before.push(entry));
            assert(spec_read_entries(rest) == spec_prepend(seq![entry], tail));
            if tail is Ok {
                assert(before + (seq![entry] + tail.unwrap()) =~= before.push(entry)
                    + tail.unwrap());
            }
        }
    }
    proof {
        assert(bytes@.subrange(len as int, len as int) =~= Seq::<u8>::empty());
        assert(pairs_of(entries@) + Seq::<(Seq<u8>, Seq<u8>)>::empty() =~= pairs_of(entries@));
    }
    Ok(entries)
}

/// The first entry found wanting stays the first when more entries are looked at.
pub proof fn lemma_first_invalid_sticky(entries: Seq<(Seq<u8>, Seq<u8>)>, j: int, k: int)
    requires
        first_invalid(entries, j) is Some,
        j <= k,
    ensures
        first_invalid(entries, k) == first_invalid(entries, j),
    decreases k - j,
{
    if j < k {
        lemma_first_invalid_sticky(entries, j, k - 1);
    }
}

/// Reads the text of every entry and gathers the receipts into a table.
/// Where a hash occurs more than once, its last receipt stands.
pub fn check_entries(entries: &Vec<(FixedBytes<32>, Vec<u8>)>) -> (r: Result<Receipts, DecodeError>)
    ensures
        match r {
            Ok(table) => spec_check_entries(pairs_of(entries@)) == Ok::<
                Map<Seq<u8>, Seq<u8>>,
                DecodeError,
            >(table@),
            Err(e) => spec_check_entries(pairs_of(entries@)) == Err::<
                Map<Seq<u8>, Seq<u8>>,
                DecodeError,
            >(e),
        },
{
    let ghost pairs = pairs_of(entries@);
    let mut table: Receipts = Table::new();
    let mut i: usize = 0;
    while i < entries.len()
        invariant
            i <= entries@.len(),
            pairs == pairs_of(entries@),
            first_invalid(pairs, i as int) is None,
            table@ == map_of(pairs.take(i as int)),
        decreases entries@.len() - i,
    {
        let text = slice_to_vec(entries[i].1.as_slice());
        match Receipt::from_json(text) {
            Some(receipt) => {
                table.insert(entries[i].0, receipt);
            },
            None => {
                proof {
                    lemma_first_invalid_sticky(pairs, i as int + 1, pairs.len() as int);
                }
                return Err(DecodeError::InvalidReceipt { index: i });
            },
        }
        proof {
            let next = pairs.take(i as int + 1);
            assert(next.drop_last() =~= pairs.take(i as int));
            assert(next.last() == pairs[i as int]);
        }
        i += 1;
    }
    assert(pairs.take(entries@.len() as int) =~= pairs);
    Ok(table)
}

/// Reads the table that the region `bytes` holds: the region is first cut
/// into entries, then every text is read.
pub fn from_ssz_bytes(bytes: &[u8]) -> (r: Result<Receipts, DecodeError>)
    ensures
        match r {
            Ok(table) => spec_decode(bytes@) == Ok::<Map<Seq<u8>, Seq<u8>>, DecodeError>(table@),
            Err(e) => spec_decode(bytes@) == Err::<Map<Seq<u8>, Seq<u8>>, DecodeError>(e),
        },
{
    match read_entries(bytes) {
        Ok(entries) => check_entries(&entries),
        Err(e) => Err(e),
    }
}

} // verus!
