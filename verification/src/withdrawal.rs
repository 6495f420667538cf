//! Withdrawals: fixed-shape records, and lists of them.
//!
//! A withdrawal is written as its index, the index of its validator, its
//! address and its amount, one after the other: 44 bytes, the integers least
//! significant byte first. A list of withdrawals is written as its items one
//! after the other.

use crate::codec::{
    append_bytes, append_u64, lemma_u64_roundtrip, read_u64, MAX_LENGTH_VALUE,
};
use crate::error::DecodeError;
use crate::primitives::{Address, FixedBytes};
use vstd::bytes::*;
use vstd::prelude::*;
use vstd::slice::*;

verus! {

/// Width of a withdrawal.
pub const WITHDRAWAL_LEN: usize = 44;

/// A validator withdrawal.
#[derive(Clone, Copy, Debug, PartialEq, Eq, Hash)]
pub struct Withdrawal {
    /// Identifier of the withdrawal.
    pub index: u64,
    /// Index of the validator that the withdrawal belongs to.
    pub validator_index: u64,
    /// Address that receives what is withdrawn.
    pub address: Address,
    /// What is withdrawn.
    pub amount: u64,
}

impl Default for Withdrawal {
    fn default() -> (r: Self)
        ensures
            r.index == 0,
            r.validator_index == 0,
            r.address@ == Seq::new(20, |i: int| 0u8),
            r.amount == 0,
    {
        Withdrawal { index: 0, validator_index: 0, address: FixedBytes::zero(), amount: 0 }
    }
}

/// What a withdrawal holds.
#[verifier::ext_equal]
pub struct WithdrawalView {
    pub index: u64,
    pub validator_index: u64,
    pub address: Seq<u8>,
    pub amount: u64,
}

impl View for Withdrawal {
    type V = WithdrawalView;

    open spec fn view(&self) -> WithdrawalView {
        WithdrawalView {
            index: self.index,
            validator_index: self.validator_index,
            address: self.address@,
            amount: self.amount,
        }
    }
}

/// The withdrawals that a list holds.
pub open spec fn withdrawal_views(items: Seq<Withdrawal>) -> Seq<WithdrawalView> {
    items.map_values(|w: Withdrawal| w@)
}

/// The 44 bytes that hold the withdrawal `w`.
pub open spec fn spec_encode_withdrawal(w: WithdrawalView) -> Seq<u8> {
    spec_u64_to_le_bytes(w.index) + spec_u64_to_le_bytes(w.validator_index) + w.address
        + spec_u64_to_le_bytes(w.amount)
}

/// The withdrawal that the 44 bytes of `bytes` hold.
pub open spec fn spec_withdrawal_of(bytes: Seq<u8>) -> WithdrawalView {
    WithdrawalView {
        index: spec_u64_from_le_bytes(bytes.subrange(0, 8)),
        validator_index: spec_u64_from_le_bytes(bytes.subrange(8, 16)),
        address: bytes.subrange(16, 36),
        amount: spec_u64_from_le_bytes(bytes.subrange(36, 44)),
    }
}

/// The withdrawal that `bytes` holds, if there are 44 of them.
pub open spec fn spec_decode_withdrawal(bytes: Seq<u8>) -> Result<WithdrawalView, DecodeError> {
    if bytes.len() != WITHDRAWAL_LEN {
        Err(DecodeError::InvalidByteLength { len: bytes.len() as usize, expected: WITHDRAWAL_LEN })
    } else {
        Ok(spec_withdrawal_of(bytes))
    }
}

/// The bytes of the list that holds `items`.
pub open spec fn spec_encode_withdrawals(items: Seq<WithdrawalView>) -> Seq<u8>
    decreases items.len(),
{
    if items.len() == 0 {
        Seq::empty()
    } else {
        spec_encode_withdrawals(items.drop_last()) + spec_encode_withdrawal(items.last())
    }
}

/// The items of the list that `bytes` holds, taken 44 bytes at a time.
pub open spec fn spec_withdrawal_items(bytes: Seq<u8>) -> Seq<WithdrawalView> {
    Seq::new(bytes.len() / 44, |i: int| spec_withdrawal_of(bytes.subrange(44 * i, 44 * i + 44)))
}

/// The list that `bytes` holds. Bytes that do not end with a whole
/// withdrawal are refused, with the width of what is left over.
pub open spec fn spec_decode_withdrawals(bytes: Seq<u8>) -> Result<
    Seq<WithdrawalView>,
    DecodeError,
> {
    if bytes.len() % 44 != 0 {
        Err(
            DecodeError::InvalidByteLength {
                len: (bytes.len() % 44) as usize,
                expected: WITHDRAWAL_LEN,
            },
        )
    } else {
        Ok(spec_withdrawal_items(bytes))
    }
}

/// Whether the address of every item has the width of an address.
pub open spec fn withdrawals_well_formed(items: Seq<WithdrawalView>) -> bool {
    forall|i: int| 0 <= i < items.len() ==> (#[trigger] items[i]).address.len() == 20
}

/// Reading a written withdrawal gives it back.
pub proof fn lemma_withdrawal_roundtrip(w: WithdrawalView)
    requires
        w.address.len() == 20,
    ensures
        spec_encode_withdrawal(w).len() == WITHDRAWAL_LEN,
        spec_withdrawal_of(spec_encode_withdrawal(w)) == w,
        spec_decode_withdrawal(spec_encode_withdrawal(w)) == Ok::<WithdrawalView, DecodeError>(w),
{
    lemma_u64_roundtrip(w.index);
    lemma_u64_roundtrip(w.validator_index);
    lemma_u64_roundtrip(w.amount);
    let b = spec_encode_withdrawal(w);
    assert(b.subrange(0, 8) =~= spec_u64_to_le_bytes(w.index));
    assert(b.subrange(8, 16) =~= spec_u64_to_le_bytes(w.validator_index));
    assert(b.subrange(16, 36) =~= w.address);
    assert(b.subrange(36, 44) =~= spec_u64_to_le_bytes(w.amount));
    assert(spec_withdrawal_of(b) =~= w);
}

/// A list of N withdrawals is written as 44 × N bytes.
pub proof fn lemma_withdrawals_len(items: Seq<WithdrawalView>)
    requires
        withdrawals_well_formed(items),
    ensures
        spec_encode_withdrawals(items).len() == 44 * items.len(),
    decreases items.len(),
{
    if items.len() > 0 {
        let front = items.drop_last();
        assert forall|i: int| 0 <= i < front.len() implies (#[trigger] front[i]).address.len()
            == 20 by {
            assert(items[i].address.len() == 20);
        }
        lemma_withdrawals_len(front);
        assert(items[items.len() - 1].address.len() == 20);
        lemma_withdrawal_roundtrip(items.last());
    }
}

/// Reading a written list of withdrawals gives it back.
pub proof fn lemma_withdrawals_roundtrip(items: Seq<WithdrawalView>)
    requires
        withdrawals_well_formed(items),
    ensures
        spec_encode_withdrawals(items).len() == 44 * items.len(),
        spec_decode_withdrawals(spec_encode_withdrawals(items)) == Ok::<
            Seq<WithdrawalView>,
            DecodeError,
        >(items),
    decreases items.len(),
{
    lemma_withdrawals_len(items);
    let bytes = spec_encode_withdrawals(items);
    if items.len() > 0 {
        let n = items.len() - 1;
        let front = items.drop_last();
        let head = spec_encode_withdrawals(front);
        assert forall|i: int| 0 <= i < front.len() implies (#[trigger] front[i]).address.len()
            == 20 by {
            assert(items[i].address.len() == 20);
        }
        lemma_withdrawals_roundtrip(front);
        assert(items[n].address.len() == 20);
        lemma_withdrawal_roundtrip(items[n]);
        assert forall|i: int| 0 <= i < items.len() implies spec_withdrawal_items(bytes)[i]
            == items[i] by {
            if i < n {
                assert(spec_withdrawal_items(head)[i] == front[i]);
                assert(bytes.subrange(44 * i, 44 * i + 44) =~= head.subrange(44 * i, 44 * i + 44));
            } else {
                assert(bytes.subrange(44 * n, 44 * n + 44) =~= spec_encode_withdrawal(items[n]));
            }
        }
    }
    assert(spec_withdrawal_items(bytes) =~= items);
}

impl Withdrawal {
    /// Appends the 44 bytes of the withdrawal.
    pub fn ssz_append(&self, buf: &mut Vec<u8>)
        ensures
            final(buf)@ == old(buf)@ + spec_encode_withdrawal(self@),
    {
        append_u64(buf, self.index);
        append_u64(buf, self.validator_index);
        append_bytes(buf, self.address.as_slice());
        append_u64(buf, self.amount);
        assert(buf@ =~= old(buf)@ + spec_encode_withdrawal(self@));
    }

    /// The 44 bytes of the withdrawal.
    pub fn as_ssz_bytes(&self) -> (r: Vec<u8>)
        ensures
            r@ == spec_encode_withdrawal(self@),
            r@.len() == WITHDRAWAL_LEN,
            spec_decode_withdrawal(r@) == Ok::<WithdrawalView, DecodeError>(self@),
    {
        let mut buf: Vec<u8> = Vec::new();
        self.ssz_append(&mut buf);
        proof {
            assert(buf@ =~= spec_encode_withdrawal(self@));
            lemma_withdrawal_roundtrip(self@);
        }
        buf
    }

    /// Reads the withdrawal that the 44 bytes of `bytes` hold.
    fn read(bytes: &[u8]) -> (r: Withdrawal)
        requires
            bytes@.len() == WITHDRAWAL_LEN,
        ensures
            r@ == spec_withdrawal_of(bytes@),
    {
        Withdrawal {
            index: read_u64(bytes, 0),
            validator_index: read_u64(bytes, 8),
            address: FixedBytes::<20>::from_slice(slice_subrange(bytes, 16, 36)),
            amount: read_u64(bytes, 36),
        }
    }

    /// Reads the withdrawal that `bytes` holds.
    pub fn from_ssz_bytes(bytes: &[u8]) -> (r: Result<Withdrawal, DecodeError>)
        ensures
            match r {
                Ok(w) => spec_decode_withdrawal(bytes@) == Ok::<WithdrawalView, DecodeError>(w@),
                Err(e) => spec_decode_withdrawal(bytes@) == Err::<WithdrawalView, DecodeError>(e),
            },
    {
        if bytes.len() != WITHDRAWAL_LEN {
            return Err(
                DecodeError::InvalidByteLength { len: bytes.len(), expected: WITHDRAWAL_LEN },
            );
        }
        Ok(Withdrawal::read(bytes))
    }
}

/// Appends the bytes of the list `items`.
pub fn append_withdrawals(items: &Vec<Withdrawal>, buf: &mut Vec<u8>)
    ensures
        final(buf)@ == old(buf)@ + spec_encode_withdrawals(withdrawal_views(items@)),
        withdrawals_well_formed(withdrawal_views(items@)),
{
    let ghost views = withdrawal_views(items@);
    let mut i: usize = 0;
    while i < items.len()
        invariant
            i <= items@.len(),
            views == withdrawal_views(items@),
            buf@ == old(buf)@ + spec_encode_withdrawals(views.take(i as int)),
        decreases items@.len() - i,
    {
        items[i].ssz_append(buf);
        proof {
            let next = views.take(i as int + 1);
            assert(next.drop_last() =~= views.take(i as int));
            assert(next.last() == views[i as int]);
            assert(buf@ =~= old(buf)@ + spec_encode_withdrawals(next));
        }
        i += 1;
    }
    assert(views.take(items@.len() as int) =~= views);
}

/// Reads the list of withdrawals that `bytes` holds.
pub fn decode_withdrawals(bytes: &[u8]) -> (r: Result<Vec<Withdrawal>, DecodeError>)
    ensures
        match r {
            Ok(items) => spec_decode_withdrawals(bytes@) == Ok::<Seq<WithdrawalView>, DecodeError>(
                withdrawal_views(items@),
            ),
            Err(e) => spec_decode_withdrawals(bytes@) == Err::<Seq<WithdrawalView>, DecodeError>(
                e,
            ),
        },
{
    let len = bytes.len();
    if len % WITHDRAWAL_LEN != 0 {
        return Err(
            DecodeError::InvalidByteLength { len: len % WITHDRAWAL_LEN, expected: WITHDRAWAL_LEN },
        );
    }
    let count = len / WITHDRAWAL_LEN;
    let mut items: Vec<Withdrawal> = Vec::new();
    let mut i: usize = 0;
    while i < count
        invariant
            i <= count,
            len == bytes@.len(),
            len == 44 * count,
            items@.len() == i,
            forall|j: int|
                0 <= j < i ==> (#[trigger] items@[j])@ == spec_withdrawal_items(bytes@)[j],
        decreases count - i,
    {
        let start = i * WITHDRAWAL_LEN;
        let item = Withdrawal::read(slice_subrange(bytes, start, start + WITHDRAWAL_LEN));
        items.push(item);
        i += 1;
    }
    assert(withdrawal_views(items@) =~= spec_withdrawal_items(bytes@));
    Ok(items)
}

/// Width of the bytes of the list `items`, if it can be written as an
/// offset: a width of more than `MAX_LENGTH_VALUE` cannot.
pub fn withdrawals_encoded_len(items: &Vec<Withdrawal>) -> (r: Option<usize>)
    ensures
        match r {
            Some(n) => n == 44 * items@.len() && n <= MAX_LENGTH_VALUE,
            None => 44 * items@.len() > MAX_LENGTH_VALUE,
        },
{
    if items.len() <= MAX_LENGTH_VALUE / WITHDRAWAL_LEN {
        Some(items.len() * WITHDRAWAL_LEN)
    } else {
        None
    }
}

/// The bytes of the list `items`.
pub fn encode_withdrawals(items: &Vec<Withdrawal>) -> (r: Vec<u8>)
    ensures
        r@ == spec_encode_withdrawals(withdrawal_views(items@)),
        r@.len() == 44 * items@.len(),
{
    let mut buf: Vec<u8> = Vec::new();
    append_withdrawals(items, &mut buf);
    proof {
        assert(buf@ =~= spec_encode_withdrawals(withdrawal_views(items@)));
        lemma_withdrawals_len(withdrawal_views(items@));
    }
    buf
}

} // verus!
