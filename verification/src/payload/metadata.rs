//! The metadata of a flashblock as a record.

use crate::codec::{
    add_len, append_bytes, lemma_u64_roundtrip, read_u64, u64_bytes, MAX_LENGTH_VALUE,
};
use crate::error::DecodeError;
use crate::layout::{
    conforms, container_len, encode_container, fixed_len, lemma_split_container, slot_start,
    spec_container, spec_split, split, var_len, views, FieldKind,
};
use crate::payload::new_account_balances_ssz;
use crate::payload::receipts_ssz;
use crate::payload::{FlashblocksMetadata, MetadataView, NewAccountBalances, Receipts};
use crate::table::{map_of, Table};
use vstd::bytes::*;
use vstd::prelude::*;
use vstd::slice::*;

verus! {

/// Width of the fixed region of the metadata.
pub const METADATA_FIXED_LEN: usize = 16;

/// The fields of the metadata, in declared order: the two tables are of variable width.
pub open spec fn metadata_layout() -> Seq<FieldKind> {
    seq![FieldKind::Variable, FieldKind::Variable, FieldKind::Fixed(8)]
}

/// The bytes of each field of the metadata, in declared order, its tables
/// holding `receipts` and `balances` in these orders.
pub open spec fn metadata_parts(
    receipts: Seq<(Seq<u8>, Seq<u8>)>,
    balances: Seq<(Seq<u8>, nat)>,
    block_number: u64,
) -> Seq<Seq<u8>> {
    seq![
        receipts_ssz::spec_encode(receipts),
        new_account_balances_ssz::spec_encode(balances),
        spec_u64_to_le_bytes(block_number),
    ]
}

/// The record that holds the metadata, its tables holding `receipts` and
/// `balances` in these orders.
pub open spec fn spec_encode_metadata(
    receipts: Seq<(Seq<u8>, Seq<u8>)>,
    balances: Seq<(Seq<u8>, nat)>,
    block_number: u64,
) -> Seq<u8> {
    spec_container(metadata_layout(), metadata_parts(receipts, balances, block_number))
}

/// The metadata that the record `bytes` holds, or the first thing wrong with
/// it: with the record itself, then with the receipts, then with the balances.
pub open spec fn spec_decode_metadata(bytes: Seq<u8>) -> Result<MetadataView, DecodeError> {
    match spec_split(bytes, metadata_layout()) {
        Err(e) => Err(e),
        Ok(parts) => match receipts_ssz::spec_decode(parts[0]) {
            Err(e) => Err(e),
            Ok(receipts) => match new_account_balances_ssz::spec_decode(parts[1]) {
                Err(e) => Err(e),
                Ok(new_account_balances) => Ok(
                    MetadataView {
                        receipts,
                        new_account_balances,
                        block_number: spec_u64_from_le_bytes(parts[2]),
                    },
                ),
            },
        },
    }
}

/// Width of the record that holds the metadata.
pub open spec fn spec_metadata_len(
    receipts: Seq<(Seq<u8>, Seq<u8>)>,
    balances: Seq<(Seq<u8>, nat)>,
) -> nat {
    METADATA_FIXED_LEN as nat + receipts_ssz::spec_encode(receipts).len() + 52 * balances.len()
}

/// The fixed region of the metadata has 16 bytes.
pub proof fn lemma_metadata_layout()
    ensures
        metadata_layout().len() == 3,
        fixed_len(metadata_layout()) == METADATA_FIXED_LEN,
{
    reveal_with_fuel(slot_start, 4);
}

/// The parts of the metadata fit its layout, and its record has the width
/// of the fixed region and the two tables.
pub proof fn lemma_metadata_parts(
    receipts: Seq<(Seq<u8>, Seq<u8>)>,
    balances: Seq<(Seq<u8>, nat)>,
    block_number: u64,
)
    requires
        new_account_balances_ssz::well_formed(balances),
    ensures
        conforms(metadata_layout(), metadata_parts(receipts, balances, block_number)),
        container_len(metadata_layout(), metadata_parts(receipts, balances, block_number))
            == spec_metadata_len(receipts, balances),
{
    lemma_metadata_layout();
    lemma_u64_roundtrip(block_number);
    new_account_balances_ssz::lemma_encoded_len(balances);
    reveal_with_fuel(var_len, 4);
}

/// Reading written metadata gives back its block number and its tables as
/// maps, whatever the order in which their entries were written.
pub proof fn lemma_metadata_roundtrip(
    receipts: Seq<(Seq<u8>, Seq<u8>)>,
    balances: Seq<(Seq<u8>, nat)>,
    block_number: u64,
)
    requires
        receipts_ssz::well_formed(receipts),
        new_account_balances_ssz::well_formed(balances),
        spec_metadata_len(receipts, balances) <= MAX_LENGTH_VALUE,
    ensures
        spec_encode_metadata(receipts, balances, block_number).len() == spec_metadata_len(
            receipts,
            balances,
        ),
        spec_decode_metadata(spec_encode_metadata(receipts, balances, block_number)) == Ok::<
            MetadataView,
            DecodeError,
        >(
            MetadataView {
                receipts: map_of(receipts),
                new_account_balances: map_of(balances),
                block_number,
            },
        ),
{
    let parts = metadata_parts(receipts, balances, block_number);
    lemma_metadata_parts(receipts, balances, block_number);
    lemma_split_container(metadata_layout(), parts);
    lemma_u64_roundtrip(block_number);
    receipts_ssz::lemma_roundtrip(receipts);
    new_account_balances_ssz::lemma_roundtrip(balances);
    assert(spec_decode_metadata(
        spec_encode_metadata(receipts, balances, block_number),
    ).unwrap() =~= MetadataView {
        receipts: map_of(receipts),
        new_account_balances: map_of(balances),
        block_number,
    });
}

/// The layout of the metadata.
pub fn layout() -> (r: Vec<FieldKind>)
    ensures
        r@ == metadata_layout(),
{
    let r = vec![FieldKind::Variable, FieldKind::Variable, FieldKind::Fixed(8)];
    assert(r@ =~= metadata_layout());
    r
}

impl Default for FlashblocksMetadata {
    fn default() -> (r: Self)
        ensures
            r@ == (MetadataView {
                receipts: Map::empty(),
                new_account_balances: Map::empty(),
                block_number: 0,
            }),
    {
        FlashblocksMetadata {
            receipts: Table::new(),
            new_account_balances: Table::new(),
            block_number: 0,
        }
    }
}

impl FlashblocksMetadata {
    /// The metadata that holds these tables and this block number.
    pub fn new(receipts: Receipts, new_account_balances: NewAccountBalances, block_number: u64) -> (r:
        Self)
        ensures
            r.receipts == receipts,
            r.new_account_balances == new_account_balances,
            r.block_number == block_number,
    {
        FlashblocksMetadata { receipts, new_account_balances, block_number }
    }

    /// The record that holds the metadata, its tables written in the order of their entries.
    pub open spec fn ssz_bytes(&self) -> Seq<u8> {
        spec_encode_metadata(
            self.receipts.pairs(),
            self.new_account_balances.pairs(),
            self.block_number,
        )
    }

    /// Width of the record that holds the metadata.
    pub open spec fn ssz_len(&self) -> nat {
        spec_metadata_len(self.receipts.pairs(), self.new_account_balances.pairs())
    }

    /// The bytes of the fields of the metadata, in declared order.
    fn parts(&self) -> (parts: Vec<Vec<u8>>)
        ensures
            views(parts@) == metadata_parts(
                self.receipts.pairs(),
                self.new_account_balances.pairs(),
                self.block_number,
            ),
            receipts_ssz::well_formed(self.receipts.pairs()),
            new_account_balances_ssz::well_formed(self.new_account_balances.pairs()),
    {
        let mut receipts: Vec<u8> = Vec::new();
        receipts_ssz::encode::ssz_append(&self.receipts, &mut receipts);
        let mut balances: Vec<u8> = Vec::new();
        new_account_balances_ssz::encode::ssz_append(&self.new_account_balances, &mut balances);
        let mut parts: Vec<Vec<u8>> = Vec::new();
        parts.push(receipts);
        parts.push(balances);
        parts.push(u64_bytes(self.block_number));
        proof {
            assert(receipts@ =~= receipts_ssz::spec_encode(self.receipts.pairs()));
            assert(balances@ =~= new_account_balances_ssz::spec_encode(
                self.new_account_balances.pairs(),
            ));
            assert(views(parts@) =~= metadata_parts(
                self.receipts.pairs(),
                self.new_account_balances.pairs(),
                self.block_number,
            ));
        }
        parts
    }

    /// The record that holds the metadata, if it can be written: a record of
    /// more than `MAX_LENGTH_VALUE` bytes cannot.
    pub fn encode(&self) -> (r: Option<Vec<u8>>)
        ensures
            receipts_ssz::well_formed(self.receipts.pairs()),
            match r {
                Some(bytes) => {
                    &&& self.ssz_len() <= MAX_LENGTH_VALUE
                    &&& bytes@ == self.ssz_bytes()
                    &&& bytes@.len() == self.ssz_len()
                    &&& spec_decode_metadata(bytes@) == Ok::<MetadataView, DecodeError>(self@)
                },
                None => self.ssz_len() > MAX_LENGTH_VALUE,
            },
    {
        let parts = self.parts();
        proof {
            lemma_metadata_parts(
                self.receipts.pairs(),
                self.new_account_balances.pairs(),
                self.block_number,
            );
            new_account_balances_ssz::lemma_encoded_len(self.new_account_balances.pairs());
            assert(views(parts@)[0] == parts@[0]@);
            assert(views(parts@)[1] == parts@[1]@);
        }
        let total = add_len(
            add_len(Some(METADATA_FIXED_LEN), parts[0].len()),
            parts[1].len(),
        );
        if total.is_none() {
            return None;
        }
        proof {
            lemma_metadata_roundtrip(
                self.receipts.pairs(),
                self.new_account_balances.pairs(),
                self.block_number,
            );
        }
        let layout = layout();
        Some(encode_container(layout.as_slice(), &parts))
    }

    /// Width of the record that holds the metadata, if it can be written.
    pub fn encoded_len(&self) -> (r: Option<usize>)
        ensures
            match r {
                Some(n) => n == self.ssz_len() && n <= MAX_LENGTH_VALUE,
                None => self.ssz_len() > MAX_LENGTH_VALUE,
            },
    {
        match self.encode() {
            Some(bytes) => Some(bytes.len()),
            None => None,
        }
    }

    /// The record that holds the metadata.
    pub fn as_ssz_bytes(&self) -> (r: Vec<u8>)
        requires
            self.ssz_len() <= MAX_LENGTH_VALUE,
        ensures
            r@ == self.ssz_bytes(),
            r@.len() == self.ssz_len(),
            spec_decode_metadata(r@) == Ok::<MetadataView, DecodeError>(self@),
    {
        match self.encode() {
            Some(bytes) => bytes,
            None => {
                proof {
                    assert(false);
                }
                Vec::new()
            },
        }
    }

    /// Appends the record that holds the metadata.
    pub fn ssz_append(&self, buf: &mut Vec<u8>)
        requires
            self.ssz_len() <= MAX_LENGTH_VALUE,
        ensures
            final(buf)@ == old(buf)@ + self.ssz_bytes(),
    {
        let bytes = self.as_ssz_bytes();
        append_bytes(buf, bytes.as_slice());
    }

    /// Reads the metadata that the record `bytes` holds.
    pub fn from_ssz_bytes(bytes: &[u8]) -> (r: Result<FlashblocksMetadata, DecodeError>)
        ensures
            match r {
                Ok(metadata) => spec_decode_metadata(bytes@) == Ok::<MetadataView, DecodeError>(
                    metadata@,
                ),
                Err(e) => spec_decode_metadata(bytes@) == Err::<MetadataView, DecodeError>(e),
            },
    {
        let layout = layout();
        proof {
            lemma_metadata_layout();
        }
        let ranges = match split(bytes, layout.as_slice()) {
            Ok(ranges) => ranges,
            Err(e) => { return Err(e); },
        };
        let ghost parts = spec_split(bytes@, metadata_layout()).unwrap();
        proof {
            assert forall|k: int| 0 <= k < 3 implies bytes@.subrange(
                ranges@[k].0 as int,
                ranges@[k].1 as int,
            ) == #[trigger] parts[k] by {}
        }
        let receipts = match receipts_ssz::decode::from_ssz_bytes(
            slice_subrange(bytes, ranges[0].0, ranges[0].1),
        ) {
            Ok(table) => table,
            Err(e) => { return Err(e); },
        };
        let new_account_balances = match new_account_balances_ssz::decode::from_ssz_bytes(
            slice_subrange(bytes, ranges[1].0, ranges[1].1),
        ) {
            Ok(table) => table,
            Err(e) => { return Err(e); },
        };
        let metadata = FlashblocksMetadata {
            receipts,
            new_account_balances,
            block_number: read_u64(bytes, ranges[2].0),
        };
        assert(metadata@ =~= spec_decode_metadata(bytes@).unwrap());
        Ok(metadata)
    }
}

} // verus!
