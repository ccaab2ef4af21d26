//! The events of the node's update stream, reduced to what the indexer reads.

use vstd::prelude::*;

verus! {

/// An amount of one asset; no asset bytes stand for the native asset.
#[derive(Clone, Debug)]
pub struct Amount {
    pub asset_id: Vec<u8>,
    pub amount: i64,
}

/// The balance of an address after an update.
#[derive(Clone, Debug)]
pub struct BalanceUpdate {
    pub address: Vec<u8>,
    pub amount_after: Option<Amount>,
    pub amount_before: i64,
}

#[derive(Clone, Debug)]
pub struct StateUpdate {
    pub balances: Vec<BalanceUpdate>,
}

#[derive(Clone, Debug)]
pub struct Header {
    pub reference: Vec<u8>,
    pub timestamp: i64,
}

#[derive(Clone, Debug)]
pub struct Block {
    pub header: Option<Header>,
}

#[derive(Clone, Debug)]
pub struct BlockAppend {
    pub block: Option<Block>,
}

#[derive(Clone, Debug)]
pub struct MicroBlock {
    pub reference: Vec<u8>,
}

#[derive(Clone, Debug)]
pub struct SignedMicroBlock {
    pub micro_block: Option<MicroBlock>,
    pub total_block_id: Vec<u8>,
}

#[derive(Clone, Debug)]
pub struct MicroBlockAppend {
    pub micro_block: Option<SignedMicroBlock>,
}

#[derive(Clone, Debug)]
pub enum Body {
    Block(BlockAppend),
    MicroBlock(MicroBlockAppend),
}

#[derive(Clone, Debug)]
pub struct Append {
    pub state_update: Option<StateUpdate>,
    pub body: Option<Body>,
    pub transaction_ids: Vec<Vec<u8>>,
    pub transaction_state_updates: Vec<StateUpdate>,
}

/// A rollback with the balances that it corrects.
#[derive(Clone, Debug)]
pub struct Rollback {
    pub rollback_state_update: Option<StateUpdate>,
}

#[derive(Clone, Debug)]
pub enum Update {
    Append(Append),
    Rollback(Rollback),
}

#[derive(Clone, Debug)]
pub struct BlockchainUpdated {
    pub id: Vec<u8>,
    pub height: i32,
    pub update: Option<Update>,
}

#[derive(Clone, Debug)]
pub struct SubscribeEvent {
    pub update: Option<BlockchainUpdated>,
}

} // verus!
