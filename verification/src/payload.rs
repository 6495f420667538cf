//! Flashblock payloads: what they hold and how they are written.

use crate::layout::views;
use crate::primitives::{Address, Bloom, PayloadId, B256, U256};
use crate::receipt::Receipt;
use crate::table::Table;
use crate::withdrawal::{withdrawal_views, Withdrawal, WithdrawalView};
use vstd::prelude::*;

pub mod base;
pub mod delta;
pub mod flashblock;
pub mod metadata;
pub mod new_account_balances_ssz;
pub mod payload_id_ssz;
pub mod receipts_ssz;

verus! {

/// Balances by account address.
pub type NewAccountBalances = Table<20, U256>;

/// Receipts by transaction hash.
pub type Receipts = Table<32, Receipt>;

/// The part of an execution payload that stays as it is while the block is
/// built: the parent, the block number and the other header fields that are
/// settled when construction starts.
#[derive(Clone, Debug, PartialEq, Eq)]
pub struct ExecutionPayloadBaseV1 {
    /// Root of the parent beacon block.
    pub parent_beacon_block_root: B256,
    /// Hash of the parent block.
    pub parent_hash: B256,
    /// Who receives the fees of the block.
    pub fee_recipient: Address,
    /// The previous randao of the block.
    pub prev_randao: B256,
    /// Number of the block.
    pub block_number: u64,
    /// Gas limit of the block.
    pub gas_limit: u64,
    /// Timestamp of the block.
    pub timestamp: u64,
    /// Extra data of the block.
    pub extra_data: Vec<u8>,
    /// Base fee per gas of the block.
    pub base_fee_per_gas: U256,
}

/// What an `ExecutionPayloadBaseV1` holds.
#[verifier::ext_equal]
pub struct BaseView {
    pub parent_beacon_block_root: Seq<u8>,
    pub parent_hash: Seq<u8>,
    pub fee_recipient: Seq<u8>,
    pub prev_randao: Seq<u8>,
    pub block_number: u64,
    pub gas_limit: u64,
    pub timestamp: u64,
    pub extra_data: Seq<u8>,
    pub base_fee_per_gas: nat,
}

impl View for ExecutionPayloadBaseV1 {
    type V = BaseView;

    open spec fn view(&self) -> BaseView {
        BaseView {
            parent_beacon_block_root: self.parent_beacon_block_root@,
            parent_hash: self.parent_hash@,
            fee_recipient: self.fee_recipient@,
            prev_randao: self.prev_randao@,
            block_number: self.block_number,
            gas_limit: self.gas_limit,
            timestamp: self.timestamp,
            extra_data: self.extra_data@,
            base_fee_per_gas: self.base_fee_per_gas@,
        }
    }
}

/// The part of an execution payload that changes while the block is built:
/// state root, receipts, logs and the transactions that were added. What
/// stays as it is, such as the parent hash and the block number, is left out.
#[derive(Clone, Debug, PartialEq, Eq)]
pub struct ExecutionPayloadFlashblockDeltaV1 {
    /// State root of the block.
    pub state_root: B256,
    /// Receipts root of the block.
    pub receipts_root: B256,
    /// Logs bloom of the block.
    pub logs_bloom: Bloom,
    /// Gas used by the block.
    pub gas_used: u64,
    /// Hash of the block.
    pub block_hash: B256,
    /// Transactions of the block, each in its own encoding.
    pub transactions: Vec<Vec<u8>>,
    /// Withdrawals of the block.
    pub withdrawals: Vec<Withdrawal>,
    /// Withdrawals root of the block.
    pub withdrawals_root: B256,
}

/// What an `ExecutionPayloadFlashblockDeltaV1` holds.
#[verifier::ext_equal]
pub struct DeltaView {
    pub state_root: Seq<u8>,
    pub receipts_root: Seq<u8>,
    pub logs_bloom: Seq<u8>,
    pub gas_used: u64,
    pub block_hash: Seq<u8>,
    pub transactions: Seq<Seq<u8>>,
    pub withdrawals: Seq<WithdrawalView>,
    pub withdrawals_root: Seq<u8>,
}

impl View for ExecutionPayloadFlashblockDeltaV1 {
    type V = DeltaView;

    open spec fn view(&self) -> DeltaView {
        DeltaView {
            state_root: self.state_root@,
            receipts_root: self.receipts_root@,
            logs_bloom: self.logs_bloom@,
            gas_used: self.gas_used,
            block_hash: self.block_hash@,
            transactions: views(self.transactions@),
            withdrawals: withdrawal_views(self.withdrawals@),
            withdrawals_root: self.withdrawals_root@,
        }
    }
}

/// What execution left behind that the header does not hold: the receipt of
/// every transaction, the balance of every account that changed, and the
/// number of the block they belong to.
#[derive(Clone, Debug, PartialEq, Eq)]
pub struct FlashblocksMetadata {
    /// Receipts by transaction hash.
    pub receipts: Receipts,
    /// New balances by account address.
    pub new_account_balances: NewAccountBalances,
    /// Number of the block.
    pub block_number: u64,
}

/// What a `FlashblocksMetadata` holds: its tables as maps, without an order.
#[verifier::ext_equal]
pub struct MetadataView {
    pub receipts: Map<Seq<u8>, Seq<u8>>,
    pub new_account_balances: Map<Seq<u8>, nat>,
    pub block_number: u64,
}

impl View for FlashblocksMetadata {
    type V = MetadataView;

    open spec fn view(&self) -> MetadataView {
        MetadataView {
            receipts: self.receipts@,
            new_account_balances: self.new_account_balances@,
            block_number: self.block_number,
        }
    }
}

/// A flashblock: one step in the construction of a block. The first
/// flashblock of a block brings the base of the payload; every flashblock
/// brings the delta and the metadata of the block as built so far.
#[derive(Clone, Debug, PartialEq, Eq)]
pub struct FlashblocksPayloadV1 {
    /// Identifier of the payload that is being built.
    pub payload_id: PayloadId,
    /// Position of the flashblock among those of its block.
    pub index: u64,
    /// What stays as it is while the block is built.
    pub base: Option<ExecutionPayloadBaseV1>,
    /// What has changed.
    pub diff: ExecutionPayloadFlashblockDeltaV1,
    /// What execution left behind.
    pub metadata: FlashblocksMetadata,
}

/// What a `FlashblocksPayloadV1` holds.
#[verifier::ext_equal]
pub struct PayloadView {
    pub payload_id: Seq<u8>,
    pub index: u64,
    pub base: Option<BaseView>,
    pub diff: DeltaView,
    pub metadata: MetadataView,
}

/// What an optional base holds.
pub open spec fn option_base_view(base: Option<ExecutionPayloadBaseV1>) -> Option<BaseView> {
    match base {
        Some(b) => Some(b@),
        None => None,
    }
}

impl View for FlashblocksPayloadV1 {
    type V = PayloadView;

    open spec fn view(&self) -> PayloadView {
        PayloadView {
            payload_id: self.payload_id@,
            index: self.index,
            base: option_base_view(self.base),
            diff: self.diff@,
            metadata: self.metadata@,
        }
    }
}

} // verus!
