//! Replaying a stream: what the consumer leaves in the store depends on
//! nothing but what it found there and the updates it was given.

use crate::consumer::{handled, tagged, Consumer};
use crate::db::mappers::balance_history::inserted_rows;
use crate::db::mappers::balance_history_max_uids_per_height::{
    filled, height_of, leads_selected, same_group,
};
use crate::db::mappers::blocks_microblocks::{
    appended, last_index_where, rolled_back, solidified, solidified_row, unsolidified_tail,
    BlockFilter,
};
use crate::db::mappers::safe_heights::{recorded, table_names};
use crate::db::mappers::unique_address::dictionary;
use crate::db::{
    block_uids, surviving_balances, BalanceRow, BlockRow, Db, MaxUidRow, SafeHeightRow,
};
use crate::waves::bu::balance_updates::{
    address_ids_of, asset_ids_of, chunk_rows, chunk_view, flushes, update_entries,
    BalanceHistoryView,
};
use crate::waves::{BlockType, BlockchainUpdateInfo};
use vstd::prelude::*;

verus! {

/// What a record of the ledger says.
pub struct BlockView {
    pub uid: i64,
    pub id: Seq<char>,
    pub microblock_id: Option<Seq<char>>,
    pub height: i32,
    pub time_stamp: i64,
    pub is_solidified: bool,
    pub block_type: BlockType,
}

pub open spec fn block_view(r: BlockRow) -> BlockView {
    BlockView {
        uid: r.uid,
        id: r.id@,
        microblock_id: match r.microblock_id {
            Some(m) => Some(m@),
            None => None,
        },
        height: r.height,
        time_stamp: r.time_stamp,
        is_solidified: r.is_solidified,
        block_type: r.block_type,
    }
}

pub open spec fn blocks_view(rows: Seq<BlockRow>) -> Seq<BlockView> {
    rows.map_values(|r: BlockRow| block_view(r))
}

pub open spec fn safe_heights_view(rows: Seq<SafeHeightRow>) -> Seq<(Seq<char>, i32)> {
    rows.map_values(|r: SafeHeightRow| (r.table_name@, r.height))
}

/// Two stores say the same: the same ledger, dictionaries, balance history,
/// index and safe heights, and the same keys to come.
pub open spec fn same_content(a: Db, b: Db) -> bool {
    &&& blocks_view(a.blocks@) == blocks_view(b.blocks@)
    &&& a.last_block_uid == b.last_block_uid
    &&& dictionary(a.addresses@, a.last_address_uid) == dictionary(
        b.addresses@,
        b.last_address_uid,
    )
    &&& dictionary(a.assets@, a.last_asset_uid) == dictionary(b.assets@, b.last_asset_uid)
    &&& a.balances@ == b.balances@
    &&& a.last_balance_uid == b.last_balance_uid
    &&& a.max_uids@ == b.max_uids@
    &&& a.last_max_uid_uid == b.last_max_uid_uid
    &&& safe_heights_view(a.safe_heights@) == safe_heights_view(b.safe_heights@)
}

/// Two consumers are in the same state.
pub open spec fn same_state(a: Consumer, b: Consumer) -> bool {
    a.blocks == b.blocks && chunk_view(a.balances.chunk@) == chunk_view(b.balances.chunk@)
}

proof fn lemma_views_pointwise(a: Seq<BlockRow>, b: Seq<BlockRow>)
    requires
        blocks_view(a) == blocks_view(b),
    ensures
        a.len() == b.len(),
        forall|i: int| 0 <= i < a.len() ==> block_view(#[trigger] a[i]) == block_view(b[i]),
        block_uids(a) == block_uids(b),
{
    assert(blocks_view(a).len() == a.len());
    assert(blocks_view(b).len() == b.len());
    assert forall|i: int| 0 <= i < a.len() implies block_view(#[trigger] a[i]) == block_view(
        b[i],
    ) by {
        assert(blocks_view(a)[i] == block_view(a[i]));
        assert(blocks_view(b)[i] == block_view(b[i]));
    }
    assert(block_uids(a) =~= block_uids(b)) by {
        assert forall|i: int| 0 <= i < a.len() implies block_uids(a)[i] == block_uids(b)[i] by {
            assert(block_view(a[i]) == block_view(b[i]));
        }
    }
}

proof fn lemma_last_index_where_of_views(a: Seq<BlockRow>, b: Seq<BlockRow>, f: BlockFilter)
    requires
        blocks_view(a) == blocks_view(b),
    ensures
        last_index_where(a, f) == last_index_where(b, f),
    decreases a.len(),
{
    lemma_views_pointwise(a, b);
    if a.len() > 0 {
        assert(block_view(a[a.len() - 1]) == block_view(b[b.len() - 1]));
        assert(f.holds(a.last()) == f.holds(b.last()));
        assert(blocks_view(a.drop_last()) =~= blocks_view(a).drop_last());
        assert(blocks_view(b.drop_last()) =~= blocks_view(b).drop_last());
        lemma_last_index_where_of_views(a.drop_last(), b.drop_last(), f);
    }
}

proof fn lemma_height_of_views(a: Seq<BlockRow>, b: Seq<BlockRow>, uid: i64)
    requires
        blocks_view(a) == blocks_view(b),
        block_uids(a).contains(uid),
    ensures
        height_of(a, uid) == height_of(b, uid),
{
    lemma_views_pointwise(a, b);
    let k = block_uids(a).index_of(uid);
    assert(0 <= k < a.len());
    assert(block_view(a[k]) == block_view(b[k]));
}

proof fn lemma_inserted_rows_of_views(
    a: Seq<BlockRow>,
    b: Seq<BlockRow>,
    chunk: Seq<BalanceHistoryView>,
    asset_ids: Map<Seq<char>, i64>,
    address_ids: Map<Seq<char>, i64>,
    last: i64,
)
    requires
        block_uids(a) == block_uids(b),
    ensures
        inserted_rows(a, chunk, asset_ids, address_ids, last) == inserted_rows(
            b,
            chunk,
            asset_ids,
            address_ids,
            last,
        ),
    decreases chunk.len(),
{
    if chunk.len() > 0 {
        lemma_inserted_rows_of_views(a, b, chunk.drop_last(), asset_ids, address_ids, last);
    }
}

proof fn lemma_surviving_balances_of_views(rows: Seq<BalanceRow>, a: Seq<BlockRow>, b: Seq<BlockRow>)
    requires
        block_uids(a) == block_uids(b),
    ensures
        surviving_balances(rows, a) == surviving_balances(rows, b),
    decreases rows.len(),
{
    reveal(Seq::filter);
    if rows.len() > 0 {
        lemma_surviving_balances_of_views(rows.drop_last(), a, b);
    }
}

proof fn lemma_leads_selected_of_views(
    balances: Seq<BalanceRow>,
    a: Seq<BlockRow>,
    b: Seq<BlockRow>,
    selected: Seq<i64>,
    r: BalanceRow,
)
    requires
        blocks_view(a) == blocks_view(b),
        forall|k: int|
            0 <= k < balances.len() ==> block_uids(a).contains((#[trigger] balances[k]).block_uid),
        block_uids(a).contains(r.block_uid),
    ensures
        leads_selected(balances, a, selected, r) == leads_selected(balances, b, selected, r),
{
    lemma_height_of_views(a, b, r.block_uid);
    assert forall|k: int| 0 <= k < balances.len() implies same_group(a, #[trigger] balances[k], r)
        == same_group(b, balances[k], r) by {
        lemma_height_of_views(a, b, balances[k].block_uid);
    }
}

proof fn lemma_filled_of_views(
    index: Seq<MaxUidRow>,
    last: i64,
    balances: Seq<BalanceRow>,
    n: int,
    a: Seq<BlockRow>,
    b: Seq<BlockRow>,
    selected: Seq<i64>,
)
    requires
        blocks_view(a) == blocks_view(b),
        0 <= n <= balances.len(),
        forall|k: int|
            0 <= k < balances.len() ==> block_uids(a).contains((#[trigger] balances[k]).block_uid),
    ensures
        filled(index, last, balances, n, a, selected) == filled(
            index,
            last,
            balances,
            n,
            b,
            selected,
        ),
    decreases n,
{
    if n > 0 {
        lemma_filled_of_views(index, last, balances, n - 1, a, b, selected);
        let r = balances[n - 1];
        lemma_leads_selected_of_views(balances, a, b, selected, r);
        lemma_height_of_views(a, b, r.block_uid);
    }
}

proof fn lemma_recorded_of_views(
    pre_a: Seq<SafeHeightRow>,
    post_a: Seq<SafeHeightRow>,
    pre_b: Seq<SafeHeightRow>,
    post_b: Seq<SafeHeightRow>,
    name: Seq<char>,
    h: i32,
)
    requires
        safe_heights_view(pre_a) == safe_heights_view(pre_b),
        table_names(pre_a).no_duplicates(),
        recorded(pre_a, post_a, name, h),
        recorded(pre_b, post_b, name, h),
    ensures
        safe_heights_view(post_a) == safe_heights_view(post_b),
{
    assert(safe_heights_view(pre_a).len() == pre_a.len());
    assert(safe_heights_view(pre_b).len() == pre_b.len());
    assert forall|i: int| 0 <= i < pre_a.len() implies (#[trigger] pre_a[i]).table_name@
        == pre_b[i].table_name@ && pre_a[i].height == pre_b[i].height by {
        assert(safe_heights_view(pre_a)[i] == (pre_a[i].table_name@, pre_a[i].height));
        assert(safe_heights_view(pre_b)[i] == (pre_b[i].table_name@, pre_b[i].height));
    }
    assert(table_names(pre_a) =~= table_names(pre_b));
    if table_names(pre_a).contains(name) {
        let k = table_names(pre_a).index_of(name);
        assert forall|i: int| 0 <= i < post_a.len() implies safe_heights_view(post_a)[i]
            == safe_heights_view(post_b)[i] by {
            if i != k {
                assert(post_a[i] == pre_a[i]);
                assert(post_b[i] == pre_b[i]);
                assert(pre_a[i].table_name@ == pre_b[i].table_name@);
            } else {
                assert(pre_a[k].table_name@ == pre_b[k].table_name@);
            }
        }
        assert(safe_heights_view(post_a) =~= safe_heights_view(post_b));
    } else {
        assert forall|i: int| 0 <= i < post_a.len() implies safe_heights_view(post_a)[i]
            == safe_heights_view(post_b)[i] by {
            if i < pre_a.len() {
                assert(post_a.drop_last()[i] == pre_a[i]);
                assert(post_b.drop_last()[i] == pre_b[i]);
                assert(pre_a[i].table_name@ == pre_b[i].table_name@);
            }
        }
        assert(safe_heights_view(post_a) =~= safe_heights_view(post_b));
    }
}

proof fn lemma_solidified_of_views(a: Seq<BlockRow>, b: Seq<BlockRow>, ref_block_id: String)
    requires
        blocks_view(a) == blocks_view(b),
    ensures
        blocks_view(solidified(a, ref_block_id)) == blocks_view(solidified(b, ref_block_id)),
{
    lemma_views_pointwise(a, b);
    lemma_last_index_where_of_views(a, b, BlockFilter::PendingBlock);
    crate::db::mappers::blocks_microblocks::lemma_last_index_where(a, BlockFilter::PendingBlock);
    let d = last_index_where(a, BlockFilter::PendingBlock);
    if d >= 0 {
        assert(block_view(a[d]) == block_view(b[d]));
        let sa = solidified(a, ref_block_id);
        let sb = solidified(b, ref_block_id);
        assert forall|i: int| 0 <= i < a.len() implies blocks_view(sa)[i] == blocks_view(sb)[i] by {
            assert(block_view(a[i]) == block_view(b[i]));
            assert(sa[i] == solidified_row(a[i], ref_block_id, a[d].height, a[d].time_stamp));
            assert(sb[i] == solidified_row(b[i], ref_block_id, b[d].height, b[d].time_stamp));
        }
        assert(blocks_view(sa) =~= blocks_view(sb));
    }
}

proof fn lemma_appended_of_views(
    a: Seq<BlockRow>,
    b: Seq<BlockRow>,
    uid: i64,
    block_id: String,
    height: u32,
    time_stamp: i64,
    solidified: bool,
    block_type: BlockType,
)
    requires
        blocks_view(a) == blocks_view(b),
    ensures
        blocks_view(appended(a, uid, block_id, height, time_stamp, solidified, block_type))
            == blocks_view(appended(b, uid, block_id, height, time_stamp, solidified, block_type)),
{
    lemma_views_pointwise(a, b);
    let xa = appended(a, uid, block_id, height, time_stamp, solidified, block_type);
    let xb = appended(b, uid, block_id, height, time_stamp, solidified, block_type);
    assert forall|i: int| 0 <= i < xa.len() implies blocks_view(xa)[i] == blocks_view(xb)[i] by {
        if i < a.len() {
            assert(block_view(a[i]) == block_view(b[i]));
        }
    }
    assert(blocks_view(xa) =~= blocks_view(xb));
}

proof fn lemma_unsolidified_tail_of_views(a: Seq<BlockRow>, b: Seq<BlockRow>)
    requires
        blocks_view(a) == blocks_view(b),
    ensures
        blocks_view(unsolidified_tail(a)) == blocks_view(unsolidified_tail(b)),
{
    lemma_views_pointwise(a, b);
    let xa = unsolidified_tail(a);
    let xb = unsolidified_tail(b);
    assert forall|i: int| 0 <= i < xa.len() implies blocks_view(xa)[i] == blocks_view(xb)[i] by {
        assert(block_view(a[i]) == block_view(b[i]));
    }
    assert(blocks_view(xa) =~= blocks_view(xb));
}

proof fn lemma_rolled_back_of_views(a: Seq<BlockRow>, b: Seq<BlockRow>, block_id: String)
    requires
        blocks_view(a) == blocks_view(b),
    ensures
        blocks_view(rolled_back(a, block_id)) == blocks_view(rolled_back(b, block_id)),
{
    lemma_views_pointwise(a, b);
    lemma_last_index_where_of_views(a, b, BlockFilter::WithId(block_id));
    crate::db::mappers::blocks_microblocks::lemma_last_index_where(
        a,
        BlockFilter::WithId(block_id),
    );
    let xa = rolled_back(a, block_id);
    let xb = rolled_back(b, block_id);
    assert forall|i: int| 0 <= i < xa.len() implies blocks_view(xa)[i] == blocks_view(xb)[i] by {
        assert(block_view(a[i]) == block_view(b[i]));
    }
    assert(blocks_view(xa) =~= blocks_view(xb));
}

/// The block analyzer does the same to stores that say the same: from the
/// same state and the same update it comes to the same state, the same key
/// and stores that say the same.
pub proof fn lemma_blocks_sent_alike(
    pre: crate::waves::bu::blocks::Analyzer,
    a0: Db,
    b0: Db,
    block: BlockchainUpdateInfo,
    post_a: crate::waves::bu::blocks::Analyzer,
    post_b: crate::waves::bu::blocks::Analyzer,
    a1: Db,
    b1: Db,
    uid_a: i64,
    uid_b: i64,
)
    requires
        same_content(a0, b0),
        crate::waves::bu::blocks::sent(pre, a0, block, post_a, a1, uid_a),
        crate::waves::bu::blocks::sent(pre, b0, block, post_b, b1, uid_b),
    ensures
        post_a == post_b,
        uid_a == uid_b,
        same_content(a1, b1),
{
    match block.block_type {
        BlockType::MicroBlock => {
            if pre.save_solidified {
                lemma_unsolidified_tail_of_views(a0.blocks@, b0.blocks@);
            }
            lemma_appended_of_views(
                if pre.save_solidified {
                    unsolidified_tail(a0.blocks@)
                } else {
                    a0.blocks@
                },
                if pre.save_solidified {
                    unsolidified_tail(b0.blocks@)
                } else {
                    b0.blocks@
                },
                uid_a,
                block.id->0,
                block.height->0,
                0,
                false,
                BlockType::MicroBlock,
            );
        },
        BlockType::Block => {
            if pre.was_microblocks {
                lemma_solidified_of_views(a0.blocks@, b0.blocks@, block.reference_block_id->0);
            }
            lemma_appended_of_views(
                if pre.was_microblocks {
                    solidified(a0.blocks@, block.reference_block_id->0)
                } else {
                    a0.blocks@
                },
                if pre.was_microblocks {
                    solidified(b0.blocks@, block.reference_block_id->0)
                } else {
                    b0.blocks@
                },
                uid_a,
                block.id->0,
                block.height->0,
                block.timestamp->0,
                pre.save_solidified,
                BlockType::Block,
            );
        },
        BlockType::Rollback => {
            lemma_rolled_back_of_views(a0.blocks@, b0.blocks@, block.id->0);
            lemma_views_pointwise(a1.blocks@, b1.blocks@);
            assert(block_view(a1.blocks@[a1.blocks@.len() - 1]) == block_view(
                b1.blocks@[b1.blocks@.len() - 1],
            ));
            lemma_surviving_balances_of_views(a0.balances@, a1.blocks@, b1.blocks@);
        },
        BlockType::EMPTY => {},
    }
}

/// The balance analyzer does the same to stores that say the same: with the
/// same entries waiting and the same update, the same entries wait
/// afterwards and the stores say the same.
pub proof fn lemma_balances_sent_alike(
    pre: Seq<BalanceHistoryView>,
    a0: Db,
    b0: Db,
    block: BlockchainUpdateInfo,
    post_a: Seq<BalanceHistoryView>,
    post_b: Seq<BalanceHistoryView>,
    a1: Db,
    b1: Db,
)
    requires
        same_content(a0, b0),
        a0.safe_heights_wf(),
        a1.wf(),
        crate::waves::bu::balance_updates::sent(pre, a0, block, post_a, a1),
        crate::waves::bu::balance_updates::sent(pre, b0, block, post_b, b1),
    ensures
        post_a =~= post_b,
        same_content(a1, b1),
{
    let pending = pre + update_entries(block);
    if flushes(block.block_type, pending.len() as int) {
        lemma_views_pointwise(a0.blocks@, b0.blocks@);
        assert(asset_ids_of(a0, pending) == asset_ids_of(b0, pending));
        assert(address_ids_of(a0, pending) == address_ids_of(b0, pending));
        lemma_inserted_rows_of_views(
            a0.blocks@,
            b0.blocks@,
            pending,
            asset_ids_of(a0, pending),
            address_ids_of(a0, pending),
            a0.last_balance_uid,
        );
        assert(chunk_rows(a0, pending) == chunk_rows(b0, pending));
        assert(a1.balances@ == b1.balances@);
        assert(a1.blocks == a0.blocks);
        lemma_filled_of_views(
            a0.max_uids@,
            a0.last_max_uid_uid,
            a1.balances@,
            a1.balances@.len() as int,
            a0.blocks@,
            b0.blocks@,
            crate::db::balance_uids(chunk_rows(a0, pending)),
        );
        lemma_recorded_of_views(
            a0.safe_heights@,
            a1.safe_heights@,
            b0.safe_heights@,
            b1.safe_heights@,
            crate::waves::bu::balance_updates::BH_TABLE_NAME@,
            crate::db::mappers::safe_heights::safe_height(
                crate::waves::bu::balance_updates::min_height(pending),
            ),
        );
        assert(table_names(a0.safe_heights@) =~= a0.safe_heights@.map_values(
            |r: SafeHeightRow| r.table_name@,
        ));
    }
}

/// Replaying one update: two consumers in the same state, over stores that
/// say the same, given the same update, end in the same state, with the same
/// key for the update, over stores that say the same. The balance history in
/// particular is the same, row for row.
pub proof fn lemma_replay_is_deterministic(
    pre_a: Consumer,
    pre_b: Consumer,
    a0: Db,
    b0: Db,
    block: BlockchainUpdateInfo,
    post_a: Consumer,
    post_b: Consumer,
    a1: Db,
    b1: Db,
    uid_a: i64,
    uid_b: i64,
)
    requires
        same_state(pre_a, pre_b),
        same_content(a0, b0),
        a0.wf(),
        a1.wf(),
        handled(pre_a, a0, block, post_a, a1, uid_a),
        handled(pre_b, b0, block, post_b, b1, uid_b),
    ensures
        same_state(post_a, post_b),
        uid_a == uid_b,
        same_content(a1, b1),
        a1.balances@ == b1.balances@,
{
    let mid_a = choose|mid: Db| #[trigger]
        crate::waves::bu::blocks::sent(pre_a.blocks, a0, block, post_a.blocks, mid, uid_a)
            && crate::waves::bu::balance_updates::sent(
            chunk_view(pre_a.balances.chunk@),
            mid,
            tagged(block, uid_a),
            chunk_view(post_a.balances.chunk@),
            a1,
        );
    let mid_b = choose|mid: Db| #[trigger]
        crate::waves::bu::blocks::sent(pre_b.blocks, b0, block, post_b.blocks, mid, uid_b)
            && crate::waves::bu::balance_updates::sent(
            chunk_view(pre_b.balances.chunk@),
            mid,
            tagged(block, uid_b),
            chunk_view(post_b.balances.chunk@),
            b1,
        );
    lemma_blocks_sent_alike(
        pre_a.blocks,
        a0,
        b0,
        block,
        post_a.blocks,
        post_b.blocks,
        mid_a,
        mid_b,
        uid_a,
        uid_b,
    );
    lemma_balances_sent_alike(
        chunk_view(pre_a.balances.chunk@),
        mid_a,
        mid_b,
        tagged(block, uid_a),
        chunk_view(post_a.balances.chunk@),
        chunk_view(post_b.balances.chunk@),
        a1,
        b1,
    );
}

/// A run of the consumer over a stream: the states and stores that it went
/// through, one update after the other.
pub open spec fn replayed(
    consumers: Seq<Consumer>,
    stores: Seq<Db>,
    updates: Seq<BlockchainUpdateInfo>,
) -> bool {
    &&& consumers.len() == updates.len() + 1
    &&& stores.len() == updates.len() + 1
    &&& stores[0].wf()
    &&& forall|i: int|
        #![trigger updates[i]]
        0 <= i < updates.len() ==> stores[i + 1].wf() && exists|uid: i64| #[trigger]
            handled(
                consumers[i],
                stores[i],
                updates[i],
                consumers[i + 1],
                stores[i + 1],
                uid,
            )
}

/// Replaying a stream: two runs over the same updates that start in the
/// same state, over stores that say the same, agree after every update, and
/// their balance histories are the same, row for row.
pub proof fn lemma_replayed_streams_agree(
    consumers_a: Seq<Consumer>,
    stores_a: Seq<Db>,
    consumers_b: Seq<Consumer>,
    stores_b: Seq<Db>,
    updates: Seq<BlockchainUpdateInfo>,
    i: int,
)
    requires
        replayed(consumers_a, stores_a, updates),
        replayed(consumers_b, stores_b, updates),
        same_state(consumers_a[0], consumers_b[0]),
        same_content(stores_a[0], stores_b[0]),
        0 <= i <= updates.len(),
    ensures
        same_state(consumers_a[i], consumers_b[i]),
        same_content(stores_a[i], stores_b[i]),
        stores_a[i].balances@ == stores_b[i].balances@,
        stores_a[i].wf(),
    decreases i,
{
    if i > 0 {
        lemma_replayed_streams_agree(
            consumers_a,
            stores_a,
            consumers_b,
            stores_b,
            updates,
            i - 1,
        );
        let u = updates[i - 1];
        let uid_a = choose|uid: i64| #[trigger]
            handled(
                consumers_a[i - 1],
                stores_a[i - 1],
                u,
                consumers_a[i - 1 + 1],
                stores_a[i - 1 + 1],
                uid,
            );
        let uid_b = choose|uid: i64| #[trigger]
            handled(
                consumers_b[i - 1],
                stores_b[i - 1],
                u,
                consumers_b[i - 1 + 1],
                stores_b[i - 1 + 1],
                uid,
            );
        lemma_replay_is_deterministic(
            consumers_a[i - 1],
            consumers_b[i - 1],
            stores_a[i - 1],
            stores_b[i - 1],
            u,
            consumers_a[i],
            consumers_b[i],
            stores_a[i],
            stores_b[i],
            uid_a,
            uid_b,
        );
    }
}

} // verus!
