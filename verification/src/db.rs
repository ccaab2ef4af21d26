//! The indexer's store: its tables, their rows and what holds of them at
//! every moment.

pub mod mappers;
pub mod statements;

use crate::text::owned;
use crate::waves::BlockType;
use vstd::hash_map::StringHashMap;
use vstd::prelude::*;

verus! {

/// Texts with their surrogate keys.
pub type IdMap = StringHashMap<i64>;

/// Fixed surrogate key of the native asset.
pub const WAVES_ASSET_ID: i64 = 1;

/// One record of the block ledger.
#[derive(Clone, Debug)]
pub struct BlockRow {
    pub uid: i64,
    pub id: String,
    pub microblock_id: Option<String>,
    pub height: i32,
    pub time_stamp: i64,
    pub is_solidified: bool,
    pub block_type: BlockType,
}

/// Audit record of one rollback.
#[derive(Clone, Debug)]
pub struct RollbackRow {
    pub uid: i64,
    pub max_uid_kept: i64,
    pub id: String,
    pub max_height: i32,
    pub max_time_stamp: i64,
    pub deleted_blocks_data: String,
}

/// One entry of a dictionary: a text and its permanent surrogate key.
#[derive(Clone, Debug)]
pub struct DictRow {
    pub uid: i64,
    pub text: String,
}

/// One balance: what an address holds of an asset once the block with key
/// `block_uid` was applied.
#[derive(Clone, Copy, Debug, PartialEq, Eq, Structural)]
pub struct BalanceRow {
    pub uid: i64,
    pub block_uid: i64,
    pub address_id: i64,
    pub asset_id: i64,
    pub amount: i64,
}

/// Latest balance of an address in an asset among the rows of one height.
#[derive(Clone, Copy, Debug, PartialEq, Eq, Structural)]
pub struct MaxUidRow {
    pub uid: i64,
    pub balance_history_uid: i64,
    pub asset_id: i64,
    pub address_id: i64,
    pub block_uid: i64,
    pub height: i32,
    pub amount: i64,
}

/// Height up to which a named table is known to be durable.
#[derive(Clone, Debug)]
pub struct SafeHeightRow {
    pub table_name: String,
    pub height: i32,
}

#[derive(Clone, Copy, Debug, PartialEq, Eq, Structural)]
pub enum TaskState {
    New,
    Progress,
    Done,
    Error,
}

/// A request for the holders of an asset at a height.
#[derive(Clone, Debug)]
pub struct TaskRow {
    pub uid: i64,
    pub asset_id: String,
    pub height: i32,
    pub state: TaskState,
    pub error_message: Option<String>,
}

/// One holder in a frozen distribution; `uid` is its rank.
#[derive(Clone, Copy, Debug, PartialEq, Eq, Structural)]
pub struct SnapshotRow {
    pub uid: i64,
    pub address_id: i64,
    pub max_uid: i64,
    pub max_bh_uid: i64,
    pub amount: i64,
    pub height: i32,
}

/// The frozen distribution that a task produced.
#[derive(Clone, Debug)]
pub struct Snapshot {
    pub task_uid: i64,
    pub height: i32,
    pub rows: Vec<SnapshotRow>,
}

/// All tables of the indexer, each with the last key its sequence gave out.
#[derive(Debug)]
pub struct Db {
    pub blocks: Vec<BlockRow>,
    pub last_block_uid: i64,
    pub rollbacks: Vec<RollbackRow>,
    pub last_rollback_uid: i64,
    pub addresses: Vec<DictRow>,
    pub last_address_uid: i64,
    pub assets: Vec<DictRow>,
    pub last_asset_uid: i64,
    pub balances: Vec<BalanceRow>,
    pub last_balance_uid: i64,
    pub max_uids: Vec<MaxUidRow>,
    pub last_max_uid_uid: i64,
    pub safe_heights: Vec<SafeHeightRow>,
    pub tasks: Vec<TaskRow>,
    pub last_task_uid: i64,
    pub snapshots: Vec<Snapshot>,
}

/// Keys in insertion order: strictly increasing, positive, none beyond the
/// last one given out.
pub open spec fn ascending(uids: Seq<i64>, last: i64) -> bool {
    &&& 0 <= last
    &&& forall|i: int, j: int| 0 <= i < j < uids.len() ==> uids[i] < uids[j]
    &&& forall|i: int| 0 <= i < uids.len() ==> 0 < #[trigger] uids[i] <= last
}

pub open spec fn block_uids(rows: Seq<BlockRow>) -> Seq<i64> {
    rows.map_values(|r: BlockRow| r.uid)
}

pub open spec fn balance_uids(rows: Seq<BalanceRow>) -> Seq<i64> {
    rows.map_values(|r: BalanceRow| r.uid)
}

pub open spec fn max_uid_uids(rows: Seq<MaxUidRow>) -> Seq<i64> {
    rows.map_values(|r: MaxUidRow| r.uid)
}

pub open spec fn dict_uids(rows: Seq<DictRow>) -> Seq<i64> {
    rows.map_values(|r: DictRow| r.uid)
}

pub open spec fn task_uids(rows: Seq<TaskRow>) -> Seq<i64> {
    rows.map_values(|r: TaskRow| r.uid)
}

/// The texts of a dictionary, in key order.
pub open spec fn dict_texts(rows: Seq<DictRow>) -> Seq<Seq<char>> {
    rows.map_values(|r: DictRow| r.text@)
}

/// A dictionary: keys in order, no text twice.
pub open spec fn dict_wf(rows: Seq<DictRow>, last: i64) -> bool {
    &&& ascending(dict_uids(rows), last)
    &&& dict_texts(rows).no_duplicates()
}

/// Two index rows for the same asset, height and address.
pub open spec fn same_key(a: MaxUidRow, b: MaxUidRow) -> bool {
    a.asset_id == b.asset_id && a.height == b.height && a.address_id == b.address_id
}

/// Ranks of a snapshot are dense and start at one.
pub open spec fn ranked(rows: Seq<SnapshotRow>) -> bool {
    forall|k: int| 0 <= k < rows.len() ==> (#[trigger] rows[k]).uid == k + 1
}

/// Whether a record with this key is in the ledger.
pub fn has_block(rows: &Vec<BlockRow>, uid: i64) -> (b: bool)
    ensures
        b == block_uids(rows@).contains(uid),
{
    let mut i: usize = 0;
    while i < rows.len()
        invariant
            i <= rows@.len(),
            forall|k: int| 0 <= k < i ==> block_uids(rows@)[k] != uid,
        decreases rows@.len() - i,
    {
        if rows[i].uid == uid {
            assert(block_uids(rows@)[i as int] == uid);
            return true;
        }
        i = i + 1;
    }
    false
}

/// What a sequence held it still holds after a push.
pub proof fn lemma_contains_after_push(s: Seq<i64>, x: i64)
    ensures
        forall|y: i64| s.contains(y) ==> #[trigger] s.push(x).contains(y),
        s.push(x).contains(x),
{
    assert forall|y: i64| s.contains(y) implies #[trigger] s.push(x).contains(y) by {
        let i = choose|i: int| 0 <= i < s.len() && s[i] == y;
        assert(s.push(x)[i] == y);
    }
    assert(s.push(x)[s.len() as int] == x);
}


/// Whether a row with this key is in the balance history.
pub fn has_balance(rows: &Vec<BalanceRow>, uid: i64) -> (b: bool)
    ensures
        b == balance_uids(rows@).contains(uid),
{
    let mut i: usize = 0;
    while i < rows.len()
        invariant
            i <= rows@.len(),
            forall|k: int| 0 <= k < i ==> balance_uids(rows@)[k] != uid,
        decreases rows@.len() - i,
    {
        if rows[i].uid == uid {
            assert(balance_uids(rows@)[i as int] == uid);
            return true;
        }
        i = i + 1;
    }
    false
}

/// Keys stay in order when a greater one is appended.
pub proof fn lemma_ascending_push(s: Seq<i64>, x: i64, last: i64)
    requires
        ascending(s, last),
        forall|a: int| 0 <= a < s.len() ==> s[a] < x,
        0 < x <= last,
    ensures
        ascending(s.push(x), last),
{
}

/// The balance rows whose block is still in the ledger.
pub open spec fn surviving_balances(balances: Seq<BalanceRow>, blocks: Seq<BlockRow>) -> Seq<
    BalanceRow,
> {
    balances.filter(|b: BalanceRow| block_uids(blocks).contains(b.block_uid))
}

/// The index rows whose balance row is still in the history.
pub open spec fn surviving_index(index: Seq<MaxUidRow>, balances: Seq<BalanceRow>) -> Seq<
    MaxUidRow,
> {
    index.filter(|m: MaxUidRow| balance_uids(balances).contains(m.balance_history_uid))
}

fn retain_balances(balances: &Vec<BalanceRow>, blocks: &Vec<BlockRow>, last: Ghost<i64>) -> (out:
    Vec<BalanceRow>)
    requires
        ascending(balance_uids(balances@), last@),
    ensures
        out@ == surviving_balances(balances@, blocks@),
        ascending(balance_uids(out@), last@),
        forall|a: int|
            0 <= a < out@.len() ==> block_uids(blocks@).contains((#[trigger] out@[a]).block_uid),
{
    let mut out: Vec<BalanceRow> = Vec::new();
    let mut i: usize = 0;
    let ghost keep = |b: BalanceRow| block_uids(blocks@).contains(b.block_uid);
    proof {
        reveal(Seq::filter);
        assert(balances@.subrange(0, 0) =~= Seq::<BalanceRow>::empty());
    }
    while i < balances.len()
        invariant
            i <= balances@.len(),
            keep == |b: BalanceRow| block_uids(blocks@).contains(b.block_uid),
            ascending(balance_uids(balances@), last@),
            out@ == balances@.subrange(0, i as int).filter(keep),
            ascending(balance_uids(out@), last@),
            forall|a: int, j: int|
                #![trigger out@[a], balances@[j]]
                0 <= a < out@.len() && i <= j < balances@.len() ==> out@[a].uid
                    < balances@[j].uid,
            forall|a: int|
                0 <= a < out@.len() ==> block_uids(blocks@).contains(
                    (#[trigger] out@[a]).block_uid,
                ),
        decreases balances@.len() - i,
    {
        let row = balances[i];
        proof {
            balances@.subrange(0, i as int).lemma_filter_push(row, keep);
            assert(balances@.subrange(0, i as int).push(row) =~= balances@.subrange(0, i + 1));
            assert(balance_uids(balances@)[i as int] == row.uid);
        }
        if has_block(blocks, row.block_uid) {
            proof {
                assert(balance_uids(out@.push(row)) =~= balance_uids(out@).push(row.uid));
                assert forall|a: int| 0 <= a < out@.len() implies balance_uids(out@)[a]
                    < row.uid by {
                    assert(out@[a].uid < balances@[i as int].uid);
                }
                lemma_ascending_push(balance_uids(out@), row.uid, last@);
                assert forall|a: int, j: int|
                    #![trigger out@.push(row)[a], balances@[j]]
                    0 <= a < out@.push(row).len() && i + 1 <= j < balances@.len() implies out@.push(
                    row,
                )[a].uid < balances@[j].uid by {
                    if a == out@.len() {
                        assert(balance_uids(balances@)[i as int] < balance_uids(balances@)[j]);
                    }
                }
            }
            out.push(row);
        }
        i = i + 1;
    }
    assert(balances@.subrange(0, i as int) =~= balances@);
    out
}

fn retain_index(index: &Vec<MaxUidRow>, balances: &Vec<BalanceRow>, last: Ghost<i64>) -> (out: Vec<
    MaxUidRow,
>)
    requires
        ascending(max_uid_uids(index@), last@),
        forall|i: int, j: int| 0 <= i < j < index@.len() ==> !same_key(index@[i], index@[j]),
    ensures
        out@ == surviving_index(index@, balances@),
        ascending(max_uid_uids(out@), last@),
        forall|i: int, j: int| 0 <= i < j < out@.len() ==> !same_key(out@[i], out@[j]),
        forall|a: int|
            0 <= a < out@.len() ==> balance_uids(balances@).contains(
                (#[trigger] out@[a]).balance_history_uid,
            ),
{
    let mut out: Vec<MaxUidRow> = Vec::new();
    let mut i: usize = 0;
    let ghost keep = |m: MaxUidRow| balance_uids(balances@).contains(m.balance_history_uid);
    proof {
        reveal(Seq::filter);
        assert(index@.subrange(0, 0) =~= Seq::<MaxUidRow>::empty());
    }
    while i < index.len()
        invariant
            i <= index@.len(),
            keep == |m: MaxUidRow| balance_uids(balances@).contains(m.balance_history_uid),
            ascending(max_uid_uids(index@), last@),
            forall|i: int, j: int| 0 <= i < j < index@.len() ==> !same_key(index@[i], index@[j]),
            out@ == index@.subrange(0, i as int).filter(keep),
            ascending(max_uid_uids(out@), last@),
            forall|a: int, j: int|
                #![trigger out@[a], index@[j]]
                0 <= a < out@.len() && i <= j < index@.len() ==> out@[a].uid < index@[j].uid
                    && !same_key(out@[a], index@[j]),
            forall|a: int, b: int| 0 <= a < b < out@.len() ==> !same_key(out@[a], out@[b]),
            forall|a: int|
                0 <= a < out@.len() ==> balance_uids(balances@).contains(
                    (#[trigger] out@[a]).balance_history_uid,
                ),
        decreases index@.len() - i,
    {
        let row = index[i];
        proof {
            index@.subrange(0, i as int).lemma_filter_push(row, keep);
            assert(index@.subrange(0, i as int).push(row) =~= index@.subrange(0, i + 1));
            assert(max_uid_uids(index@)[i as int] == row.uid);
        }
        if has_balance(balances, row.balance_history_uid) {
            proof {
                assert(max_uid_uids(out@.push(row)) =~= max_uid_uids(out@).push(row.uid));
                assert forall|a: int| 0 <= a < out@.len() implies max_uid_uids(out@)[a]
                    < row.uid by {
                    assert(out@[a].uid < index@[i as int].uid);
                }
                lemma_ascending_push(max_uid_uids(out@), row.uid, last@);
                assert forall|a: int, j: int|
                    #![trigger out@.push(row)[a], index@[j]]
                    0 <= a < out@.push(row).len() && i + 1 <= j < index@.len() implies out@.push(
                    row,
                )[a].uid < index@[j].uid && !same_key(out@.push(row)[a], index@[j]) by {
                    if a == out@.len() {
                        assert(max_uid_uids(index@)[i as int] < max_uid_uids(index@)[j]);
                    }
                }
            }
            out.push(row);
        }
        i = i + 1;
    }
    assert(index@.subrange(0, i as int) =~= index@);
    out
}

/// Every row of the balance history refers to a record that the block
/// ledger holds.
pub proof fn lemma_balance_rows_refer_to_blocks(db: Db, i: int)
    requires
        db.wf(),
        0 <= i < db.balances@.len(),
    ensures
        exists|k: int|
            0 <= k < db.blocks@.len() && (#[trigger] db.blocks@[k]).uid == db.balances@[i].block_uid,
{
    let uids = block_uids(db.blocks@);
    assert(uids.contains(db.balances@[i].block_uid));
    let k = choose|k: int| 0 <= k < uids.len() && uids[k] == db.balances@[i].block_uid;
    assert(db.blocks@[k].uid == db.balances@[i].block_uid);
}

impl BlockRow {
    pub fn copy(&self) -> (r: BlockRow)
        ensures
            r == *self,
    {
        BlockRow {
            uid: self.uid,
            id: self.id.clone(),
            microblock_id: match &self.microblock_id {
                Some(m) => Some(m.clone()),
                None => None,
            },
            height: self.height,
            time_stamp: self.time_stamp,
            is_solidified: self.is_solidified,
            block_type: self.block_type,
        }
    }
}

impl Db {
    pub open spec fn blocks_wf(&self) -> bool {
        ascending(block_uids(self.blocks@), self.last_block_uid)
    }

    /// Every balance row refers to a block of the ledger.
    pub open spec fn balances_wf(&self) -> bool {
        &&& ascending(balance_uids(self.balances@), self.last_balance_uid)
        &&& forall|i: int|
            0 <= i < self.balances@.len() ==> block_uids(self.blocks@).contains(
                (#[trigger] self.balances@[i]).block_uid,
            )
    }

    /// One index row per asset, height and address, each for a row of the
    /// balance history.
    pub open spec fn max_uids_wf(&self) -> bool {
        &&& ascending(max_uid_uids(self.max_uids@), self.last_max_uid_uid)
        &&& forall|i: int, j: int|
            0 <= i < j < self.max_uids@.len() ==> !same_key(self.max_uids@[i], self.max_uids@[j])
        &&& forall|i: int|
            0 <= i < self.max_uids@.len() ==> balance_uids(self.balances@).contains(
                (#[trigger] self.max_uids@[i]).balance_history_uid,
            )
    }

    pub open spec fn dictionaries_wf(&self) -> bool {
        &&& dict_wf(self.addresses@, self.last_address_uid)
        &&& dict_wf(self.assets@, self.last_asset_uid)
        &&& self.assets@.len() > 0
        &&& self.assets@[0].uid == WAVES_ASSET_ID
        &&& self.assets@[0].text@ == "WAVES"@
        &&& !dict_texts(self.assets@).contains(Seq::<char>::empty())
    }

    pub open spec fn safe_heights_wf(&self) -> bool {
        self.safe_heights@.map_values(|r: SafeHeightRow| r.table_name@).no_duplicates()
    }

    pub open spec fn tasks_wf(&self) -> bool {
        &&& ascending(task_uids(self.tasks@), self.last_task_uid)
        &&& forall|i: int, j: int|
            0 <= i < j < self.tasks@.len() ==> !(self.tasks@[i].asset_id@ == self.tasks@[j].asset_id@
                && self.tasks@[i].height == self.tasks@[j].height)
        &&& forall|i: int, j: int|
            0 <= i < j < self.snapshots@.len() ==> self.snapshots@[i].task_uid
                != self.snapshots@[j].task_uid
        &&& forall|i: int|
            0 <= i < self.snapshots@.len() ==> ranked((#[trigger] self.snapshots@[i]).rows@)
    }

    /// What holds of the store between any two operations.
    pub open spec fn wf(&self) -> bool {
        &&& self.blocks_wf()
        &&& self.balances_wf()
        &&& self.max_uids_wf()
        &&& self.dictionaries_wf()
        &&& self.safe_heights_wf()
        &&& self.tasks_wf()
        &&& self.last_rollback_uid >= 0
    }


    /// What holds of the store while rows may still refer to records that
    /// were just removed.
    pub open spec fn wf_before_cascade(&self) -> bool {
        &&& self.blocks_wf()
        &&& ascending(balance_uids(self.balances@), self.last_balance_uid)
        &&& ascending(max_uid_uids(self.max_uids@), self.last_max_uid_uid)
        &&& forall|i: int, j: int|
            0 <= i < j < self.max_uids@.len() ==> !same_key(self.max_uids@[i], self.max_uids@[j])
        &&& self.dictionaries_wf()
        &&& self.safe_heights_wf()
        &&& self.tasks_wf()
        &&& self.last_rollback_uid >= 0
    }

    /// Removes the balance rows whose block is gone, then the index rows
    /// whose balance row is gone.
    pub fn cascade(&mut self)
        requires
            old(self).wf_before_cascade(),
        ensures
            final(self).wf(),
            final(self).balances@ == surviving_balances(old(self).balances@, old(self).blocks@),
            final(self).max_uids@ == surviving_index(old(self).max_uids@, final(self).balances@),
            *final(self) == (Db {
                balances: final(self).balances,
                max_uids: final(self).max_uids,
                ..*old(self)
            }),
    {
        let balances = retain_balances(&self.balances, &self.blocks, Ghost(self.last_balance_uid));
        let index = retain_index(&self.max_uids, &balances, Ghost(self.last_max_uid_uid));
        self.balances = balances;
        self.max_uids = index;
    }

    /// An empty store; the asset dictionary holds the native asset under its
    /// reserved key.
    pub fn new() -> (db: Db)
        ensures
            db.wf(),
            db.blocks@.len() == 0,
            db.rollbacks@.len() == 0,
            db.addresses@.len() == 0,
            db.assets@.len() == 1,
            db.balances@.len() == 0,
            db.max_uids@.len() == 0,
            db.safe_heights@.len() == 0,
            db.tasks@.len() == 0,
            db.snapshots@.len() == 0,
            db.last_block_uid == 0,
            db.last_rollback_uid == 0,
            db.last_address_uid == 0,
            db.last_asset_uid == WAVES_ASSET_ID,
            db.last_balance_uid == 0,
            db.last_max_uid_uid == 0,
            db.last_task_uid == 0,
    {
        let mut assets: Vec<DictRow> = Vec::new();
        assets.push(DictRow { uid: WAVES_ASSET_ID, text: owned("WAVES") });
        proof {
            reveal_strlit("WAVES");
            assert(dict_texts(assets@)[0].len() == 5);
        }
        Db {
            blocks: Vec::new(),
            last_block_uid: 0,
            rollbacks: Vec::new(),
            last_rollback_uid: 0,
            addresses: Vec::new(),
            last_address_uid: 0,
            assets,
            last_asset_uid: WAVES_ASSET_ID,
            balances: Vec::new(),
            last_balance_uid: 0,
            max_uids: Vec::new(),
            last_max_uid_uid: 0,
            safe_heights: Vec::new(),
            tasks: Vec::new(),
            last_task_uid: 0,
            snapshots: Vec::new(),
        }
    }
}

} // verus!
