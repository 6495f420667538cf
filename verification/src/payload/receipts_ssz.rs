//! The receipt table as a region of self-delimiting entries.
//!
//! Each entry is the 32 bytes of the hash, the length of the receipt's text as
//! four bytes, most significant byte first, and then the text itself. Nothing
//! separates the entries and nothing counts them: the region is read entry by
//! entry until it is used up.

use crate::codec::{lemma_be_length_roundtrip, spec_be_length_bytes, spec_be_length_value, MAX_LENGTH_VALUE};
use crate::error::DecodeError;
use crate::receipt::receipt_text;
use crate::table::map_of;
use vstd::prelude::*;

pub mod decode;
pub mod encode;

verus! {

/// Width of a hash.
pub const HASH_LEN: usize = 32;

/// Width of the length that precedes a receipt's text.
pub const LENGTH_PREFIX_LEN: usize = 4;

/// Width of what precedes a receipt's text: the hash and the length.
pub const ENTRY_HEADER_LEN: usize = 36;

/// The bytes of one entry.
pub open spec fn spec_entry_bytes(entry: (Seq<u8>, Seq<u8>)) -> Seq<u8> {
    entry.0 + spec_be_length_bytes(entry.1.len()) + entry.1
}

/// The region that holds `pairs`, in their order.
pub open spec fn spec_encode(pairs: Seq<(Seq<u8>, Seq<u8>)>) -> Seq<u8>
    decreases pairs.len(),
{
    if pairs.len() == 0 {
        Seq::empty()
    } else {
        spec_entry_bytes(pairs.first()) + spec_encode(pairs.drop_first())
    }
}

/// What reading went before, followed by what reading goes on to find.
pub open spec fn spec_prepend(
    entries: Seq<(Seq<u8>, Seq<u8>)>,
    rest: Result<Seq<(Seq<u8>, Seq<u8>)>, DecodeError>,
) -> Result<Seq<(Seq<u8>, Seq<u8>)>, DecodeError> {
    match rest {
        Ok(more) => Ok(entries + more),
        Err(e) => Err(e),
    }
}

/// The entries of the region `bytes`, in their order, none of them looked
/// into: a hash, a length and as many bytes as the length says, again and
/// again until the region is used up. A region that ends within a hash,
/// within a length or before the end of a text is refused, with the number of
/// bytes that were left and the number that were needed.
pub open spec fn spec_read_entries(bytes: Seq<u8>) -> Result<Seq<(Seq<u8>, Seq<u8>)>, DecodeError>
    decreases bytes.len(),
{
    if bytes.len() == 0 {
        Ok(Seq::empty())
    } else if bytes.len() < HASH_LEN {
        Err(DecodeError::InvalidByteLength { len: bytes.len() as usize, expected: HASH_LEN })
    } else if bytes.len() < ENTRY_HEADER_LEN {
        Err(
            DecodeError::InvalidLengthPrefix {
                len: (bytes.len() - HASH_LEN) as usize,
                expected: LENGTH_PREFIX_LEN,
            },
        )
    } else {
        let text_len = spec_be_length_value(bytes.subrange(32, 36)) as int;
        if bytes.len() - ENTRY_HEADER_LEN < text_len {
            Err(
                DecodeError::InvalidByteLength {
                    len: (bytes.len() - ENTRY_HEADER_LEN) as usize,
                    expected: text_len as usize,
                },
            )
        } else {
            spec_prepend(
                seq![(bytes.subrange(0, 32), bytes.subrange(36, 36 + text_len))],
                spec_read_entries(bytes.subrange(36 + text_len, bytes.len() as int)),
            )
        }
    }
}

/// Index of the first of the first `k` entries whose text does not read as a
/// receipt, if there is one.
pub open spec fn first_invalid(entries: Seq<(Seq<u8>, Seq<u8>)>, k: int) -> Option<int>
    decreases k,
{
    if k <= 0 {
        None
    } else {
        match first_invalid(entries, k - 1) {
            Some(i) => Some(i),
            None => if receipt_text(entries[k - 1].1) {
                None
            } else {
                Some(k - 1)
            },
        }
    }
}

/// The table that the entries hold, or the first entry whose text does not
/// read as a receipt.
pub open spec fn spec_check_entries(entries: Seq<(Seq<u8>, Seq<u8>)>) -> Result<
    Map<Seq<u8>, Seq<u8>>,
    DecodeError,
> {
    match first_invalid(entries, entries.len() as int) {
        Some(i) => Err(DecodeError::InvalidReceipt { index: i as usize }),
        None => Ok(map_of(entries)),
    }
}

/// The table that the region `bytes` holds: the region is first cut into
/// entries, then every text is read.
pub open spec fn spec_decode(bytes: Seq<u8>) -> Result<Map<Seq<u8>, Seq<u8>>, DecodeError> {
    match spec_read_entries(bytes) {
        Ok(entries) => spec_check_entries(entries),
        Err(e) => Err(e),
    }
}

/// Whether every key is a hash and every value the text of a receipt.
pub open spec fn well_formed(pairs: Seq<(Seq<u8>, Seq<u8>)>) -> bool {
    forall|i: int|
        0 <= i < pairs.len() ==> (#[trigger] pairs[i]).0.len() == HASH_LEN && receipt_text(
            pairs[i].1,
        )
}

/// An entry is as wide as its hash, its length prefix and its text.
pub proof fn lemma_entry_len(entry: (Seq<u8>, Seq<u8>))
    requires
        entry.0.len() == HASH_LEN,
        entry.1.len() <= MAX_LENGTH_VALUE,
    ensures
        spec_entry_bytes(entry).len() == 36 + entry.1.len(),
        spec_entry_bytes(entry).subrange(0, 32) == entry.0,
        spec_be_length_value(spec_entry_bytes(entry).subrange(32, 36)) == entry.1.len(),
        spec_entry_bytes(entry).subrange(36, 36 + entry.1.len() as int) == entry.1,
{
    lemma_be_length_roundtrip(entry.1.len());
    let b = spec_entry_bytes(entry);
    assert(b.subrange(0, 32) =~= entry.0);
    assert(b.subrange(32, 36) =~= spec_be_length_bytes(entry.1.len()));
    assert(b.subrange(36, 36 + entry.1.len() as int) =~= entry.1);
}

/// Writing one more entry appends its bytes.
pub proof fn lemma_encode_push(pairs: Seq<(Seq<u8>, Seq<u8>)>, entry: (Seq<u8>, Seq<u8>))
    ensures
        spec_encode(pairs.push(entry)) == spec_encode(pairs) + spec_entry_bytes(entry),
    decreases pairs.len(),
{
    let all = pairs.push(entry);
    if pairs.len() == 0 {
        assert(all.drop_first() =~= Seq::<(Seq<u8>, Seq<u8>)>::empty());
        assert(spec_encode(all.drop_first()) =~= Seq::<u8>::empty());
        assert(spec_encode(all) =~= spec_entry_bytes(entry));
        assert(spec_encode(pairs) + spec_entry_bytes(entry) =~= spec_entry_bytes(entry));
    } else {
        assert(all.drop_first() =~= pairs.drop_first().push(entry));
        lemma_encode_push(pairs.drop_first(), entry);
        assert(all.first() == pairs.first());
        assert(spec_encode(all) =~= spec_encode(pairs) + spec_entry_bytes(entry));
    }
}

/// Cutting a written region into entries gives back the pairs it was written from.
pub proof fn lemma_read_encoded(pairs: Seq<(Seq<u8>, Seq<u8>)>)
    requires
        well_formed(pairs),
    ensures
        spec_read_entries(spec_encode(pairs)) == Ok::<Seq<(Seq<u8>, Seq<u8>)>, DecodeError>(pairs),
    decreases pairs.len(),
{
    if pairs.len() > 0 {
        let head = pairs.first();
        let tail = pairs.drop_first();
        let bytes = spec_encode(pairs);
        assert(pairs[0].0.len() == HASH_LEN);
        assert forall|i: int| 0 <= i < tail.len() implies (#[trigger] tail[i]).0.len() == HASH_LEN
            && receipt_text(tail[i].1) by {
            assert(pairs[i + 1].0.len() == HASH_LEN);
        }
        lemma_read_encoded(tail);
        lemma_entry_len(head);
        let e = spec_entry_bytes(head);
        let n = head.1.len() as int;
        assert(bytes.subrange(0, 32) =~= e.subrange(0, 32));
        assert(bytes.subrange(32, 36) =~= e.subrange(32, 36));
        assert(bytes.subrange(36, 36 + n) =~= e.subrange(36, 36 + n));
        assert(bytes.subrange(36 + n, bytes.len() as int) =~= spec_encode(tail));
        assert(seq![head] + tail =~= pairs);
        assert(bytes.len() == 36 + n + spec_encode(tail).len());
        assert(spec_be_length_value(bytes.subrange(32, 36)) == n);
        assert(spec_read_entries(bytes) == spec_prepend(
            seq![(bytes.subrange(0, 32), bytes.subrange(36, 36 + n))],
            spec_read_entries(bytes.subrange(36 + n, bytes.len() as int)),
        ));
    } else {
        assert(pairs =~= Seq::<(Seq<u8>, Seq<u8>)>::empty());
    }
}

/// Among receipts, no text fails to read as one.
pub proof fn lemma_all_valid(pairs: Seq<(Seq<u8>, Seq<u8>)>, k: int)
    requires
        well_formed(pairs),
        0 <= k <= pairs.len(),
    ensures
        first_invalid(pairs, k) is None,
    decreases k,
{
    if k > 0 {
        lemma_all_valid(pairs, k - 1);
        assert(receipt_text(pairs[k - 1].1));
    }
}

/// Reading a written region gives back the table, whatever the order in
/// which its entries were written.
pub proof fn lemma_roundtrip(pairs: Seq<(Seq<u8>, Seq<u8>)>)
    requires
        well_formed(pairs),
    ensures
        spec_decode(spec_encode(pairs)) == Ok::<Map<Seq<u8>, Seq<u8>>, DecodeError>(
            map_of(pairs),
        ),
{
    lemma_read_encoded(pairs);
    lemma_all_valid(pairs, pairs.len() as int);
}

/// A table of one entry whose text has L bytes is written as a region of
/// exactly 32 + 4 + L bytes.
pub proof fn lemma_single_entry_len(hash: Seq<u8>, text: Seq<u8>)
    requires
        hash.len() == HASH_LEN,
        text.len() <= MAX_LENGTH_VALUE,
    ensures
        spec_encode(seq![(hash, text)]).len() == 32 + 4 + text.len(),
{
    let pairs = seq![(hash, text)];
    lemma_entry_len((hash, text));
    assert(pairs.drop_first() =~= Seq::<(Seq<u8>, Seq<u8>)>::empty());
    assert(spec_encode(pairs.drop_first()) =~= Seq::<u8>::empty());
}

/// The region of a table of one entry, cut short by one byte or more but not
/// to nothing, is refused: within the hash, within the length or before the
/// end of the text.
pub proof fn lemma_truncated_entry(hash: Seq<u8>, text: Seq<u8>, keep: int)
    requires
        hash.len() == HASH_LEN,
        text.len() <= MAX_LENGTH_VALUE,
        0 < keep < 32 + 4 + text.len(),
    ensures
        spec_decode(spec_encode(seq![(hash, text)]).take(keep)) is Err,
        spec_read_entries(spec_encode(seq![(hash, text)]).take(keep)) is Err,
{
    let pairs = seq![(hash, text)];
    lemma_single_entry_len(hash, text);
    lemma_entry_len((hash, text));
    let bytes = spec_encode(pairs);
    let cut = bytes.take(keep);
    assert(pairs.drop_first() =~= Seq::<(Seq<u8>, Seq<u8>)>::empty());
    assert(spec_encode(pairs.drop_first()) =~= Seq::<u8>::empty());
    assert(bytes =~= spec_entry_bytes((hash, text)));
    if keep >= 36 {
        assert(cut.subrange(32, 36) =~= bytes.subrange(32, 36));
    }
}

/// The table without entries is written as the region without bytes, which
/// reads as the table without entries.
pub proof fn lemma_empty()
    ensures
        spec_encode(Seq::<(Seq<u8>, Seq<u8>)>::empty()) == Seq::<u8>::empty(),
        spec_decode(Seq::<u8>::empty()) == Ok::<Map<Seq<u8>, Seq<u8>>, DecodeError>(
            Map::empty(),
        ),
{
}

} // verus!
