//! The flashblock as a record, and sequences of flashblocks as lists.

use crate::codec::{
    add_len, append_bytes, copy_bytes, lemma_u64_roundtrip, read_u64, u64_bytes, MAX_LENGTH_VALUE,
};
use crate::error::DecodeError;
use crate::layout::{
    conforms, container_len, encode_container, fixed_len, lemma_split_container, slot_start,
    spec_container, spec_split, split, var_len, views, FieldKind,
};
use crate::list::{
    decode_list, encode_list, lemma_list_roundtrip, list_encoded_len, list_len, spec_decode_list,
    spec_encode_list,
};
use crate::payload::base::{
    base_well_formed, lemma_base_roundtrip, spec_base_len, spec_decode_base, spec_encode_base,
};
use crate::payload::delta::{
    lemma_delta_roundtrip, spec_decode_delta, spec_delta_len, spec_encode_delta,
};
use crate::payload::metadata::{lemma_metadata_roundtrip, spec_decode_metadata};
use crate::payload::{DeltaView, MetadataView};
use crate::primitives::PayloadId;
use crate::payload::new_account_balances_ssz;
use crate::payload::payload_id_ssz;
use crate::payload::receipts_ssz;
use crate::payload::{
    option_base_view, BaseView, ExecutionPayloadBaseV1, ExecutionPayloadFlashblockDeltaV1,
    FlashblocksMetadata, FlashblocksPayloadV1, PayloadView,
};
use vstd::bytes::*;
use vstd::prelude::*;
use vstd::slice::*;

verus! {

/// Width of the fixed region of a flashblock.
pub const PAYLOAD_FIXED_LEN: usize = 28;

/// The selector of an absent value.
pub const SELECTOR_NONE: u8 = 0;

/// The selector of a present value.
pub const SELECTOR_SOME: u8 = 1;

/// The bytes that hold an optional base: a selector, and after the
/// selector of a present base its record.
pub open spec fn spec_encode_option_base(base: Option<BaseView>) -> Seq<u8> {
    match base {
        None => seq![SELECTOR_NONE],
        Some(v) => seq![SELECTOR_SOME] + spec_encode_base(v),
    }
}

/// The optional base that `bytes` holds, or the first thing wrong with it.
pub open spec fn spec_decode_option_base(bytes: Seq<u8>) -> Result<Option<BaseView>, DecodeError> {
    if bytes.len() == 0 {
        Err(DecodeError::OutOfBoundsByte { i: 0 })
    } else if bytes[0] == SELECTOR_NONE {
        if bytes.len() != 1 {
            Err(DecodeError::InvalidByteLength { len: (bytes.len() - 1) as usize, expected: 0 })
        } else {
            Ok(None)
        }
    } else if bytes[0] == SELECTOR_SOME {
        match spec_decode_base(bytes.subrange(1, bytes.len() as int)) {
            Ok(v) => Ok(Some(v)),
            Err(e) => Err(e),
        }
    } else {
        Err(DecodeError::UnionSelectorInvalid(bytes[0]))
    }
}

/// Width of the bytes that hold an optional base.
pub open spec fn spec_option_base_len(base: Option<BaseView>) -> nat {
    match base {
        None => 1,
        Some(v) => 1 + spec_base_len(v),
    }
}

/// Reading a written optional base gives it back.
pub proof fn lemma_option_base_roundtrip(base: Option<BaseView>)
    requires
        base matches Some(v) ==> base_well_formed(v) && spec_base_len(v) <= MAX_LENGTH_VALUE,
    ensures
        spec_encode_option_base(base).len() == spec_option_base_len(base),
        spec_decode_option_base(spec_encode_option_base(base)) == Ok::<
            Option<BaseView>,
            DecodeError,
        >(base),
{
    let bytes = spec_encode_option_base(base);
    match base {
        None => {},
        Some(v) => {
            lemma_base_roundtrip(v);
            assert(bytes.subrange(1, bytes.len() as int) =~= spec_encode_base(v));
        },
    }
}

/// The fields of a flashblock, in declared order: identifier and index
/// are of fixed width, the rest of variable width.
pub open spec fn payload_layout() -> Seq<FieldKind> {
    seq![
        FieldKind::Fixed(8),
        FieldKind::Fixed(8),
        FieldKind::Variable,
        FieldKind::Variable,
        FieldKind::Variable,
    ]
}

/// The flashblock that the record `bytes` holds, or the first thing wrong
/// with it: with the record itself, then with the base, then with the delta,
/// then with the metadata.
pub open spec fn spec_decode_payload(bytes: Seq<u8>) -> Result<PayloadView, DecodeError> {
    match spec_split(bytes, payload_layout()) {
        Err(e) => Err(e),
        Ok(parts) => match payload_id_ssz::spec_decode(parts[0]) {
            Err(e) => Err(e),
            Ok(payload_id) => match spec_decode_option_base(parts[2]) {
                Err(e) => Err(e),
                Ok(base) => match spec_decode_delta(parts[3]) {
                    Err(e) => Err(e),
                    Ok(diff) => match spec_decode_metadata(parts[4]) {
                        Err(e) => Err(e),
                        Ok(metadata) => Ok(
                            PayloadView {
                                payload_id,
                                index: spec_u64_from_le_bytes(parts[1]),
                                base,
                                diff,
                                metadata,
                            },
                        ),
                    },
                },
            },
        },
    }
}

/// The fixed region of a flashblock has 28 bytes.
pub proof fn lemma_payload_layout()
    ensures
        payload_layout().len() == 5,
        fixed_len(payload_layout()) == PAYLOAD_FIXED_LEN,
{
    reveal_with_fuel(slot_start, 6);
}

/// A record of five parts, the first two of eight bytes each, is as wide as
/// its fixed region and its last three parts, and splits into its parts.
pub proof fn lemma_payload_container(parts: Seq<Seq<u8>>)
    requires
        parts.len() == 5,
        parts[0].len() == 8,
        parts[1].len() == 8,
        PAYLOAD_FIXED_LEN + parts[2].len() + parts[3].len() + parts[4].len() <= MAX_LENGTH_VALUE,
    ensures
        conforms(payload_layout(), parts),
        container_len(payload_layout(), parts) == PAYLOAD_FIXED_LEN + parts[2].len()
            + parts[3].len() + parts[4].len(),
        spec_container(payload_layout(), parts).len() == container_len(payload_layout(), parts),
        spec_split(spec_container(payload_layout(), parts), payload_layout()) == Ok::<
            Seq<Seq<u8>>,
            DecodeError,
        >(parts),
{
    lemma_payload_layout();
    assert(container_len(payload_layout(), parts) == PAYLOAD_FIXED_LEN + parts[2].len()
        + parts[3].len() + parts[4].len()) by {
        reveal_with_fuel(var_len, 6);
    }
    lemma_split_container(payload_layout(), parts);
}

/// The layout of a flashblock.
pub fn layout() -> (r: Vec<FieldKind>)
    ensures
        r@ == payload_layout(),
{
    let r = vec![
        FieldKind::Fixed(8),
        FieldKind::Fixed(8),
        FieldKind::Variable,
        FieldKind::Variable,
        FieldKind::Variable,
    ];
    assert(r@ =~= payload_layout());
    r
}

impl Default for FlashblocksPayloadV1 {
    fn default() -> (r: Self)
        ensures
            r.index == 0,
            r.base is None,
            r.metadata.receipts@ == Map::<Seq<u8>, Seq<u8>>::empty(),
            r.metadata.new_account_balances@ == Map::<Seq<u8>, nat>::empty(),
    {
        FlashblocksPayloadV1 {
            payload_id: PayloadId::default(),
            index: 0,
            base: None,
            diff: ExecutionPayloadFlashblockDeltaV1::default(),
            metadata: FlashblocksMetadata::default(),
        }
    }
}

impl FlashblocksPayloadV1 {
    /// The bytes of each field of the flashblock, in declared order, the
    /// tables of its metadata written in the order of their entries.
    pub open spec fn ssz_parts(&self) -> Seq<Seq<u8>> {
        seq![
            payload_id_ssz::spec_encode(self.payload_id@),
            spec_u64_to_le_bytes(self.index),
            spec_encode_option_base(option_base_view(self.base)),
            spec_encode_delta(self.diff@),
            self.metadata.ssz_bytes(),
        ]
    }

    /// The record that holds the flashblock.
    pub open spec fn ssz_bytes(&self) -> Seq<u8> {
        spec_container(payload_layout(), self.ssz_parts())
    }

    /// Width of the record that holds the flashblock.
    pub open spec fn ssz_len(&self) -> nat {
        PAYLOAD_FIXED_LEN as nat + spec_option_base_len(option_base_view(self.base))
            + spec_delta_len(self.diff@) + self.metadata.ssz_len()
    }

    /// Whether every text in the table of receipts reads as a receipt. Every
    /// flashblock that a program holds is well formed.
    pub open spec fn well_formed(&self) -> bool {
        receipts_ssz::well_formed(self.metadata.receipts.pairs())
    }

    /// The fields of the base, if there is one, have the widths of their kinds.
    pub proof fn lemma_base_well_formed(&self)
        ensures
            option_base_view(self.base) matches Some(v) ==> base_well_formed(v),
    {
        match self.base {
            Some(b) => {
                b.lemma_well_formed();
            },
            None => {},
        }
    }

    /// The parts of a flashblock have the widths that its layout asks for,
    /// and each of them reads back as the field it was written from.
    #[verifier::rlimit(50)]
    pub proof fn lemma_parts(&self)
        requires
            self.well_formed(),
            self.ssz_len() <= MAX_LENGTH_VALUE,
        ensures
            self.ssz_parts().len() == 5,
            self.ssz_parts()[0].len() == 8,
            self.ssz_parts()[1].len() == 8,
            self.ssz_parts()[2].len() == spec_option_base_len(option_base_view(self.base)),
            self.ssz_parts()[3].len() == spec_delta_len(self.diff@),
            self.ssz_parts()[4].len() == self.metadata.ssz_len(),
            payload_id_ssz::spec_decode(self.ssz_parts()[0]) == Ok::<Seq<u8>, DecodeError>(
                self.payload_id@,
            ),
            spec_u64_from_le_bytes(self.ssz_parts()[1]) == self.index,
            spec_decode_option_base(self.ssz_parts()[2]) == Ok::<Option<BaseView>, DecodeError>(
                option_base_view(self.base),
            ),
            spec_decode_delta(self.ssz_parts()[3]) == Ok::<DeltaView, DecodeError>(self.diff@),
            spec_decode_metadata(self.ssz_parts()[4]) == Ok::<MetadataView, DecodeError>(
                self.metadata@,
            ),
    {
        let parts = self.ssz_parts();
        assert(parts[0] == self.payload_id@);
        assert(parts[1] == spec_u64_to_le_bytes(self.index));
        assert(parts[2] == spec_encode_option_base(option_base_view(self.base)));
        assert(parts[3] == spec_encode_delta(self.diff@));
        assert(parts[4] == self.metadata.ssz_bytes());
        assert(parts[1].len() == 8 && spec_u64_from_le_bytes(parts[1]) == self.index) by {
            lemma_u64_roundtrip(self.index);
        }
        assert(parts[2].len() == spec_option_base_len(option_base_view(self.base))
            && spec_decode_option_base(parts[2]) == Ok::<Option<BaseView>, DecodeError>(
            option_base_view(self.base),
        )) by {
            self.lemma_base_well_formed();
            lemma_option_base_roundtrip(option_base_view(self.base));
        }
        assert(parts[3].len() == spec_delta_len(self.diff@) && spec_decode_delta(parts[3]) == Ok::<
            DeltaView,
            DecodeError,
        >(self.diff@)) by {
            self.diff.lemma_well_formed();
            lemma_delta_roundtrip(self.diff@);
        }
        assert(parts[4].len() == self.metadata.ssz_len() && spec_decode_metadata(parts[4]) == Ok::<
            MetadataView,
            DecodeError,
        >(self.metadata@)) by {
            self.metadata.new_account_balances.lemma_pairs();
            new_account_balances_ssz::encode::lemma_entries_well_formed(
                self.metadata.new_account_balances.spec_entries(),
            );
            lemma_metadata_roundtrip(
                self.metadata.receipts.pairs(),
                self.metadata.new_account_balances.pairs(),
                self.metadata.block_number,
            );
        }
    }

    /// Reading a written flashblock gives back its scalar fields as they
    /// were, its lists item by item and its tables as maps, whatever the
    /// order in which their entries were written.
    #[verifier::rlimit(50)]
    pub proof fn lemma_roundtrip(&self)
        requires
            self.well_formed(),
            self.ssz_len() <= MAX_LENGTH_VALUE,
        ensures
            conforms(payload_layout(), self.ssz_parts()),
            container_len(payload_layout(), self.ssz_parts()) == self.ssz_len(),
            self.ssz_bytes().len() == self.ssz_len(),
            spec_decode_payload(self.ssz_bytes()) == Ok::<PayloadView, DecodeError>(self@),
    {
        let parts = self.ssz_parts();
        self.lemma_parts();
        lemma_payload_container(parts);
        assert(spec_split(self.ssz_bytes(), payload_layout()) == Ok::<
            Seq<Seq<u8>>,
            DecodeError,
        >(parts));
        assert(spec_decode_payload(self.ssz_bytes()).unwrap() =~= self@);
    }

    /// Two flashblocks that hold the same, the entries of their tables in
    /// whatever order, read back as the same from their records.
    pub proof fn lemma_order_independent(&self, other: &FlashblocksPayloadV1)
        requires
            self.well_formed(),
            other.well_formed(),
            self.ssz_len() <= MAX_LENGTH_VALUE,
            other.ssz_len() <= MAX_LENGTH_VALUE,
            self@ == other@,
        ensures
            spec_decode_payload(self.ssz_bytes()) == spec_decode_payload(other.ssz_bytes()),
    {
        self.lemma_roundtrip();
        other.lemma_roundtrip();
    }

    /// The record that holds the flashblock, if it can be written: a record
    /// of more than `MAX_LENGTH_VALUE` bytes cannot.
    #[verifier::rlimit(50)]
    pub fn encode(&self) -> (r: Option<Vec<u8>>)
        ensures
            self.well_formed(),
            match r {
                Some(bytes) => {
                    &&& self.ssz_len() <= MAX_LENGTH_VALUE
                    &&& bytes@ == self.ssz_bytes()
                    &&& bytes@.len() == self.ssz_len()
                    &&& spec_decode_payload(bytes@) == Ok::<PayloadView, DecodeError>(self@)
                },
                None => self.ssz_len() > MAX_LENGTH_VALUE,
            },
    {
        let metadata = match self.metadata.encode() {
            Some(bytes) => bytes,
            None => { return None; },
        };
        let base: Vec<u8> = match &self.base {
            Some(b) => {
                if b.encoded_len().is_none() {
                    return None;
                }
                let mut bytes: Vec<u8> = Vec::new();
                bytes.push(SELECTOR_SOME);
                b.ssz_append(&mut bytes);
                bytes
            },
            None => {
                let mut bytes: Vec<u8> = Vec::new();
                bytes.push(SELECTOR_NONE);
                bytes
            },
        };
        proof {
            assert(base@ =~= spec_encode_option_base(option_base_view(self.base)));
            self.lemma_base_well_formed();
            lemma_option_base_roundtrip(option_base_view(self.base));
        }
        if self.diff.encoded_len().is_none() {
            return None;
        }
        let diff = self.diff.as_ssz_bytes();
        let total = add_len(
            add_len(add_len(Some(PAYLOAD_FIXED_LEN), base.len()), diff.len()),
            metadata.len(),
        );
        if total.is_none() {
            return None;
        }
        let mut parts: Vec<Vec<u8>> = Vec::new();
        parts.push(copy_bytes(self.payload_id.0.as_slice()));
        parts.push(u64_bytes(self.index));
        parts.push(base);
        parts.push(diff);
        parts.push(metadata);
        proof {
            assert(views(parts@) =~= self.ssz_parts());
            self.lemma_roundtrip();
        }
        let layout = layout();
        Some(encode_container(layout.as_slice(), &parts))
    }

    /// Width of the record that holds the flashblock, if it can be written.
    pub fn encoded_len(&self) -> (r: Option<usize>)
        ensures
            match r {
                Some(n) => n == self.ssz_len() && n <= MAX_LENGTH_VALUE,
                None => self.ssz_len() > MAX_LENGTH_VALUE,
            },
    {
        match self.encode() {
            Some(bytes) => Some(bytes.len()),
            None => None,
        }
    }

    /// The record that holds the flashblock.
    pub fn as_ssz_bytes(&self) -> (r: Vec<u8>)
        requires
            self.ssz_len() <= MAX_LENGTH_VALUE,
        ensures
            r@ == self.ssz_bytes(),
            r@.len() == self.ssz_len(),
            spec_decode_payload(r@) == Ok::<PayloadView, DecodeError>(self@),
    {
        match self.encode() {
            Some(bytes) => bytes,
            None => {
                proof {
                    assert(false);
                }
                Vec::new()
            },
        }
    }

    /// Appends the record that holds the flashblock.
    pub fn ssz_append(&self, buf: &mut Vec<u8>)
        requires
            self.ssz_len() <= MAX_LENGTH_VALUE,
        ensures
            final(buf)@ == old(buf)@ + self.ssz_bytes(),
    {
        let bytes = self.as_ssz_bytes();
        append_bytes(buf, bytes.as_slice());
    }

    /// Reads the flashblock that the record `bytes` holds.
    #[verifier::rlimit(50)]
    pub fn from_ssz_bytes(bytes: &[u8]) -> (r: Result<FlashblocksPayloadV1, DecodeError>)
        ensures
            match r {
                Ok(payload) => spec_decode_payload(bytes@) == Ok::<PayloadView, DecodeError>(
                    payload@,
                ),
                Err(e) => spec_decode_payload(bytes@) == Err::<PayloadView, DecodeError>(e),
            },
    {
        let layout = layout();
        proof {
            lemma_payload_layout();
        }
        let ranges = match split(bytes, layout.as_slice()) {
            Ok(ranges) => ranges,
            Err(e) => { return Err(e); },
        };
        let ghost parts = spec_split(bytes@, payload_layout()).unwrap();
        proof {
            assert forall|k: int| 0 <= k < 5 implies bytes@.subrange(
                ranges@[k].0 as int,
                ranges@[k].1 as int,
            ) == #[trigger] parts[k] by {}
        }
        let payload_id = match payload_id_ssz::decode::from_ssz_bytes(
            slice_subrange(bytes, ranges[0].0, ranges[0].1),
        ) {
            Ok(id) => id,
            Err(e) => { return Err(e); },
        };
        let index = read_u64(bytes, ranges[1].0);
        let base = match decode_option_base(slice_subrange(bytes, ranges[2].0, ranges[2].1)) {
            Ok(base) => base,
            Err(e) => { return Err(e); },
        };
        let diff = match ExecutionPayloadFlashblockDeltaV1::from_ssz_bytes(
            slice_subrange(bytes, ranges[3].0, ranges[3].1),
        ) {
            Ok(diff) => diff,
            Err(e) => { return Err(e); },
        };
        let metadata = match FlashblocksMetadata::from_ssz_bytes(
            slice_subrange(bytes, ranges[4].0, ranges[4].1),
        ) {
            Ok(metadata) => metadata,
            Err(e) => { return Err(e); },
        };
        let payload = FlashblocksPayloadV1 { payload_id, index, base, diff, metadata };
        assert(payload@ =~= spec_decode_payload(bytes@).unwrap());
        Ok(payload)
    }
}

/// Reads the optional base that `bytes` holds.
pub fn decode_option_base(bytes: &[u8]) -> (r: Result<Option<ExecutionPayloadBaseV1>, DecodeError>)
    ensures
        match r {
            Ok(base) => spec_decode_option_base(bytes@) == Ok::<Option<BaseView>, DecodeError>(
                option_base_view(base),
            ),
            Err(e) => spec_decode_option_base(bytes@) == Err::<Option<BaseView>, DecodeError>(e),
        },
{
    if bytes.len() == 0 {
        return Err(DecodeError::OutOfBoundsByte { i: 0 });
    }
    let selector = bytes[0];
    if selector == SELECTOR_NONE {
        if bytes.len() != 1 {
            return Err(DecodeError::InvalidByteLength { len: bytes.len() - 1, expected: 0 });
        }
        Ok(None)
    } else if selector == SELECTOR_SOME {
        match ExecutionPayloadBaseV1::from_ssz_bytes(slice_subrange(bytes, 1, bytes.len())) {
            Ok(base) => Ok(Some(base)),
            Err(e) => Err(e),
        }
    } else {
        Err(DecodeError::UnionSelectorInvalid(selector))
    }
}

/// The records that hold `flashblocks`, one each.
pub open spec fn spec_records(flashblocks: Seq<FlashblocksPayloadV1>) -> Seq<Seq<u8>> {
    flashblocks.map_values(|f: FlashblocksPayloadV1| f.ssz_bytes())
}

/// What `flashblocks` hold, one view each.
pub open spec fn spec_payload_views(flashblocks: Seq<FlashblocksPayloadV1>) -> Seq<PayloadView> {
    flashblocks.map_values(|f: FlashblocksPayloadV1| f@)
}

/// Whether `flashblocks` can be written as a list: each of them as a record,
/// and the list of their records as a whole.
pub open spec fn spec_flashblocks_fit(flashblocks: Seq<FlashblocksPayloadV1>) -> bool {
    &&& forall|i: int|
        0 <= i < flashblocks.len() ==> (#[trigger] flashblocks[i]).ssz_len() <= MAX_LENGTH_VALUE
    &&& list_len(spec_records(flashblocks)) <= MAX_LENGTH_VALUE
}

/// The flashblocks that the first `k` of the records `items` hold, or the
/// first thing wrong with the first record that does not read.
pub open spec fn spec_decode_records(items: Seq<Seq<u8>>, k: int) -> Result<
    Seq<PayloadView>,
    DecodeError,
>
    decreases k,
{
    if k <= 0 {
        Ok(Seq::empty())
    } else {
        match spec_decode_records(items, k - 1) {
            Err(e) => Err(e),
            Ok(views) => match spec_decode_payload(items[k - 1]) {
                Err(e) => Err(e),
                Ok(v) => Ok(views.push(v)),
            },
        }
    }
}

/// The flashblocks that the list `bytes` holds, or the first thing wrong
/// with it: with the list itself, then with its records in their order.
pub open spec fn spec_decode_flashblocks(bytes: Seq<u8>) -> Result<Seq<PayloadView>, DecodeError> {
    match spec_decode_list(bytes) {
        Err(e) => Err(e),
        Ok(items) => spec_decode_records(items, items.len() as int),
    }
}

/// Reading the records of well-formed flashblocks gives the flashblocks back.
pub proof fn lemma_records_roundtrip(flashblocks: Seq<FlashblocksPayloadV1>, k: int)
    requires
        forall|i: int|
            0 <= i < flashblocks.len() ==> (#[trigger] flashblocks[i]).well_formed()
                && flashblocks[i].ssz_len() <= MAX_LENGTH_VALUE,
        0 <= k <= flashblocks.len(),
    ensures
        spec_decode_records(spec_records(flashblocks), k) == Ok::<Seq<PayloadView>, DecodeError>(
            spec_payload_views(flashblocks).take(k),
        ),
    decreases k,
{
    if k > 0 {
        lemma_records_roundtrip(flashblocks, k - 1);
        flashblocks[k - 1].lemma_roundtrip();
        assert(spec_payload_views(flashblocks).take(k - 1).push(flashblocks[k - 1]@)
            =~= spec_payload_views(flashblocks).take(k));
    } else {
        assert(spec_payload_views(flashblocks).take(0) =~= Seq::<PayloadView>::empty());
    }
}

/// Reading a written sequence of flashblocks gives it back, flashblock by
/// flashblock and in the same order.
pub proof fn lemma_flashblocks_roundtrip(flashblocks: Seq<FlashblocksPayloadV1>)
    requires
        forall|i: int| 0 <= i < flashblocks.len() ==> (#[trigger] flashblocks[i]).well_formed(),
        spec_flashblocks_fit(flashblocks),
    ensures
        spec_decode_flashblocks(spec_encode_list(spec_records(flashblocks))) == Ok::<
            Seq<PayloadView>,
            DecodeError,
        >(spec_payload_views(flashblocks)),
{
    lemma_list_roundtrip(spec_records(flashblocks));
    lemma_records_roundtrip(flashblocks, flashblocks.len() as int);
    assert(spec_payload_views(flashblocks).take(flashblocks.len() as int) =~= spec_payload_views(
        flashblocks,
    ));
}

/// The list that holds `flashblocks`, if it can be written: neither a
/// record nor the list may have more than `MAX_LENGTH_VALUE` bytes.
pub fn encode_flashblocks(flashblocks: &Vec<FlashblocksPayloadV1>) -> (r: Option<Vec<u8>>)
    ensures
        r is Some <==> spec_flashblocks_fit(flashblocks@),
        r matches Some(bytes) ==> bytes@ == spec_encode_list(spec_records(flashblocks@))
            && bytes@.len() == list_len(spec_records(flashblocks@)) && spec_decode_flashblocks(
            bytes@,
        ) == Ok::<Seq<PayloadView>, DecodeError>(spec_payload_views(flashblocks@)),
{
    let mut records: Vec<Vec<u8>> = Vec::new();
    let mut i: usize = 0;
    while i < flashblocks.len()
        invariant
            i <= flashblocks@.len(),
            records@.len() == i,
            forall|j: int|
                0 <= j < i ==> (#[trigger] flashblocks@[j]).ssz_len() <= MAX_LENGTH_VALUE
                    && flashblocks@[j].well_formed() && records@[j]@ == flashblocks@[j].ssz_bytes(),
        decreases flashblocks@.len() - i,
    {
        match flashblocks[i].encode() {
            Some(bytes) => {
                records.push(bytes);
            },
            None => {
                return None;
            },
        }
        i += 1;
    }
    assert(views(records@) =~= spec_records(flashblocks@));
    if list_encoded_len(&records).is_none() {
        return None;
    }
    proof {
        lemma_list_roundtrip(spec_records(flashblocks@));
        lemma_flashblocks_roundtrip(flashblocks@);
    }
    Some(encode_list(&records))
}

/// Reads the sequence of flashblocks that the list `bytes` holds.
#[verifier::rlimit(50)]
pub fn decode_flashblocks(bytes: &[u8]) -> (r: Result<Vec<FlashblocksPayloadV1>, DecodeError>)
    ensures
        match r {
            Ok(flashblocks) => spec_decode_flashblocks(bytes@) == Ok::<
                Seq<PayloadView>,
                DecodeError,
            >(spec_payload_views(flashblocks@)),
            Err(e) => spec_decode_flashblocks(bytes@) == Err::<Seq<PayloadView>, DecodeError>(e),
        },
{
    let items = match decode_list(bytes) {
        Ok(items) => items,
        Err(e) => { return Err(e); },
    };
    let ghost records = views(items@);
    let ghost mut decoded: Seq<PayloadView> = Seq::empty();
    let mut flashblocks: Vec<FlashblocksPayloadV1> = Vec::new();
    let mut i: usize = 0;
    while i < items.len()
        invariant
            i <= items@.len(),
            records == views(items@),
            spec_decode_list(bytes@) == Ok::<Seq<Seq<u8>>, DecodeError>(records),
            flashblocks@.len() == i,
            decoded.len() == i,
            forall|j: int| 0 <= j < i ==> (#[trigger] flashblocks@[j])@ == decoded[j],
            spec_decode_records(records, i as int) == Ok::<Seq<PayloadView>, DecodeError>(decoded),
        decreases items@.len() - i,
    {
        assert(records[i as int] == items@[i as int]@);
        proof {
            lemma_decode_records_step(records, i as int);
        }
        match FlashblocksPayloadV1::from_ssz_bytes(items[i].as_slice()) {
            Ok(flashblock) => {
                proof {
                    decoded = decoded.push(flashblock@);
                }
                flashblocks.push(flashblock);
            },
            Err(e) => {
                proof {
                    lemma_decode_records_sticky(records, i as int + 1, records.len() as int);
                }
                return Err(e);
            },
        }
        i += 1;
    }
    assert(spec_payload_views(flashblocks@) =~= decoded);
    Ok(flashblocks)
}

/// Looking at one more record: it reads and joins the flashblocks read so
/// far, or what is wrong with it is the answer.
pub proof fn lemma_decode_records_step(items: Seq<Seq<u8>>, k: int)
    requires
        k >= 0,
        spec_decode_records(items, k) is Ok,
    ensures
        spec_decode_records(items, k + 1) == match spec_decode_payload(items[k]) {
            Ok(v) => Ok::<Seq<PayloadView>, DecodeError>(
                spec_decode_records(items, k).unwrap().push(v),
            ),
            Err(e) => Err::<Seq<PayloadView>, DecodeError>(e),
        },
{
}

/// The first record that does not read stays the first when more records are looked at.
pub proof fn lemma_decode_records_sticky(items: Seq<Seq<u8>>, j: int, k: int)
    requires
        spec_decode_records(items, j) is Err,
        j <= k,
    ensures
        spec_decode_records(items, k) == spec_decode_records(items, j),
    decreases k - j,
{
    if j < k {
        lemma_decode_records_sticky(items, j, k - 1);
    }
}

} // verus!
