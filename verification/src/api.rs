//! The query surface: point-in-time balances and distribution snapshots.

pub mod config;
pub mod error;
pub mod repo;
pub mod server;
pub mod settings;

use vstd::hash_map::StringHashMap;
use vstd::prelude::*;

verus! {

/// The parameters of a request, by name.
pub type Params = StringHashMap<String>;

/// The parameters after the pairs of name and value were read in order; of
/// two values under one name the later one stays.
pub open spec fn params_map(pairs: Seq<(String, String)>) -> Map<Seq<char>, String>
    decreases pairs.len(),
{
    if pairs.len() == 0 {
        Map::empty()
    } else {
        params_map(pairs.drop_last()).insert(pairs.last().0@, pairs.last().1)
    }
}

/// Gathers the parameters of a request.
pub fn params_of(pairs: Vec<(String, String)>) -> (r: Params)
    ensures
        r@ == params_map(pairs@),
{
    let mut r: Params = StringHashMap::new();
    let mut i: usize = 0;
    assert(pairs@.subrange(0, 0) =~= Seq::<(String, String)>::empty());
    while i < pairs.len()
        invariant
            i <= pairs@.len(),
            r@ == params_map(pairs@.subrange(0, i as int)),
        decreases pairs@.len() - i,
    {
        proof {
            assert(pairs@.subrange(0, i + 1).drop_last() =~= pairs@.subrange(0, i as int));
            assert(pairs@.subrange(0, i + 1).last() == pairs@[i as int]);
        }
        r.insert(pairs[i].0.clone(), pairs[i].1.clone());
        i = i + 1;
    }
    assert(pairs@.subrange(0, i as int) =~= pairs@);
    r
}

/// The greatest key there can be: "the latest state".
pub const PG_MAX_BIGINT: i64 = 9223372036854775807;

/// An address and an asset whose balance is asked for.
#[derive(Clone, Debug)]
pub struct BalanceEntry {
    pub address: String,
    pub asset_id: String,
}

/// One holder of a distribution as it is shown: rank, address, amount and
/// the height of the balance.
#[derive(Clone, Debug)]
pub struct AssetDistributionItem {
    pub uid: i64,
    pub address: String,
    pub amount: i64,
    pub height: i32,
}

#[derive(Clone, Debug)]
pub struct BalanceQuery {
    pub address_asset_pairs: Vec<BalanceEntry>,
}

/// A balance with the height of its block and the block's time in whole
/// seconds since the epoch.
#[derive(Clone, Debug)]
pub struct BalanceResponseItem {
    pub address: String,
    pub asset_id: String,
    pub amount: i64,
    pub block_height: i32,
    pub block_timestamp: i64,
}

/// First and last balance of one calendar day; the day is given by its
/// first second since the epoch.
#[derive(Clone, Copy, Debug, PartialEq, Eq, Structural)]
pub struct BalanceResponseAggItem {
    pub date_stamp: i64,
    pub amount_begin: i64,
    pub amount_end: i64,
}

pub struct BalanceResponseItemView {
    pub address: Seq<char>,
    pub asset_id: Seq<char>,
    pub amount: i64,
    pub block_height: i32,
    pub block_timestamp: i64,
}

impl View for BalanceResponseItem {
    type V = BalanceResponseItemView;

    open spec fn view(&self) -> BalanceResponseItemView {
        BalanceResponseItemView {
            address: self.address@,
            asset_id: self.asset_id@,
            amount: self.amount,
            block_height: self.block_height,
            block_timestamp: self.block_timestamp,
        }
    }
}

pub struct AssetDistributionItemView {
    pub uid: i64,
    pub address: Seq<char>,
    pub amount: i64,
    pub height: i32,
}

impl View for AssetDistributionItem {
    type V = AssetDistributionItemView;

    open spec fn view(&self) -> AssetDistributionItemView {
        AssetDistributionItemView {
            uid: self.uid,
            address: self.address@,
            amount: self.amount,
            height: self.height,
        }
    }
}

impl Default for BalanceQuery {
    fn default() -> (r: Self)
        ensures
            r.address_asset_pairs@.len() == 0,
    {
        BalanceQuery { address_asset_pairs: Vec::new() }
    }
}

impl BalanceQuery {
    /// The query for one address and some assets: a pair for each asset, in
    /// order.
    pub fn from_query_by_address(address: String, asset_ids: Vec<String>) -> (r: Self)
        ensures
            r.address_asset_pairs@.len() == asset_ids@.len(),
            forall|i: int|
                0 <= i < asset_ids@.len() ==> (#[trigger] r.address_asset_pairs@[i]).address
                    == address && r.address_asset_pairs@[i].asset_id == asset_ids@[i],
    {
        let mut pairs: Vec<BalanceEntry> = Vec::new();
        let mut i: usize = 0;
        while i < asset_ids.len()
            invariant
                i <= asset_ids@.len(),
                pairs@.len() == i,
                forall|k: int|
                    0 <= k < i ==> (#[trigger] pairs@[k]).address == address && pairs@[k].asset_id
                        == asset_ids@[k],
            decreases asset_ids@.len() - i,
        {
            pairs.push(BalanceEntry { address: address.clone(), asset_id: asset_ids[i].clone() });
            i = i + 1;
        }
        BalanceQuery { address_asset_pairs: pairs }
    }
}

} // verus!
