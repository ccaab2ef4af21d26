//! The consumer: recovery at start, then one update after another through
//! the block analyzer and the balance analyzer.

pub mod mappers;
pub mod replay;
pub mod settings;

use crate::db::{
    ascending, block_uids, lemma_ascending_push, surviving_balances, surviving_index, BlockRow,
    Db, SafeHeightRow,
};
use crate::db::mappers::safe_heights::table_names;
use crate::waves::bu::balance_updates::{
    chunk_view, entry_bound, has_room, lemma_entry_bound, Analyzer as BalanceAnalyzer,
};
use crate::waves::bu::blocks::{admits, Analyzer as BlockAnalyzer};
use crate::waves::BlockchainUpdateInfo;
use vstd::prelude::*;

verus! {

/// Distance that a safe height keeps from the heights just written.
pub const SAFE_HEIGHT_OFFSET: u32 = 20;

/// Seconds without a message after which the stream counts as stalled.
pub const GRPC_STREAM_AWAIT_TIMEOUT_SECS: u64 = 300;

/// Seconds that the distribution worker rests when no task waits.
pub const DISTRIBUTION_IDLE_SECS: u64 = 300;

/// The least of the safe heights; `0` when there is none.
pub open spec fn min_safe_height(rows: Seq<SafeHeightRow>) -> i32
    decreases rows.len(),
{
    if rows.len() == 0 {
        0
    } else if rows.len() == 1 {
        rows[0].height
    } else {
        let rest = min_safe_height(rows.drop_last());
        if rows.last().height < rest {
            rows.last().height
        } else {
            rest
        }
    }
}

fn least_safe_height(rows: &Vec<SafeHeightRow>) -> (h: i32)
    ensures
        h == min_safe_height(rows@),
{
    if rows.len() == 0 {
        return 0;
    }
    let mut h = rows[0].height;
    let mut i: usize = 1;
    assert(rows@.subrange(0, 1)[0] == rows@[0]);
    while i < rows.len()
        invariant
            1 <= i <= rows@.len(),
            h == min_safe_height(rows@.subrange(0, i as int)),
        decreases rows@.len() - i,
    {
        proof {
            assert(rows@.subrange(0, i + 1).drop_last() =~= rows@.subrange(0, i as int));
            assert(rows@.subrange(0, i + 1).last() == rows@[i as int]);
        }
        if rows[i].height < h {
            h = rows[i].height;
        }
        i = i + 1;
    }
    assert(rows@.subrange(0, i as int) =~= rows@);
    h
}

/// A record that recovery keeps: solidified and not above the safe height.
pub open spec fn survives_recovery(r: BlockRow, safe: i32) -> bool {
    r.is_solidified && r.height <= safe
}

/// The height of the record with the greatest key; `0` for an empty ledger.
pub open spec fn last_height(blocks: Seq<BlockRow>) -> i32 {
    if blocks.len() > 0 {
        blocks.last().height
    } else {
        0
    }
}

/// Reconciles the store after a restart. Every record that is not solidified
/// or lies above the least safe height is removed, with the balance rows and
/// index rows that depend on it; then every safe height is set to the height
/// of the record with the greatest key.
pub fn init_db_data(db: &mut Db)
    requires
        old(db).wf(),
    ensures
        final(db).wf(),
        final(db).blocks@ == old(db).blocks@.filter(
            |r: BlockRow| survives_recovery(r, min_safe_height(old(db).safe_heights@)),
        ),
        forall|i: int|
            0 <= i < final(db).blocks@.len() ==> (#[trigger] final(db).blocks@[i]).is_solidified
                && final(db).blocks@[i].height <= min_safe_height(old(db).safe_heights@),
        final(db).balances@ == surviving_balances(old(db).balances@, final(db).blocks@),
        final(db).max_uids@ == surviving_index(old(db).max_uids@, final(db).balances@),
        final(db).safe_heights@.len() == old(db).safe_heights@.len(),
        forall|i: int|
            0 <= i < final(db).safe_heights@.len() ==> (#[trigger] final(db).safe_heights@[i]).table_name
                == old(db).safe_heights@[i].table_name && final(db).safe_heights@[i].height
                == last_height(final(db).blocks@),
        *final(db) == (Db {
            blocks: final(db).blocks,
            balances: final(db).balances,
            max_uids: final(db).max_uids,
            safe_heights: final(db).safe_heights,
            ..*old(db)
        }),
{
    let safe = least_safe_height(&db.safe_heights);
    let ghost keep = |r: BlockRow| survives_recovery(r, min_safe_height(old(db).safe_heights@));
    let mut kept: Vec<BlockRow> = Vec::new();
    let n = db.blocks.len();
    let mut i: usize = 0;
    proof {
        reveal(Seq::filter);
        assert(db.blocks@.subrange(0, 0) =~= Seq::<BlockRow>::empty());
    }
    while i < n
        invariant
            i <= n,
            n == db.blocks@.len(),
            *db == *old(db),
            db.wf(),
            safe == min_safe_height(old(db).safe_heights@),
            keep == |r: BlockRow| survives_recovery(r, min_safe_height(old(db).safe_heights@)),
            kept@ == db.blocks@.subrange(0, i as int).filter(keep),
            ascending(block_uids(kept@), db.last_block_uid),
            forall|a: int, j: int|
                #![trigger kept@[a], db.blocks@[j]]
                0 <= a < kept@.len() && i <= j < n ==> kept@[a].uid < db.blocks@[j].uid,
            forall|a: int|
                0 <= a < kept@.len() ==> (#[trigger] kept@[a]).is_solidified && kept@[a].height
                    <= safe,
        decreases n - i,
    {
        let row = &db.blocks[i];
        proof {
            db.blocks@.subrange(0, i as int).lemma_filter_push(*row, keep);
            assert(db.blocks@.subrange(0, i as int).push(*row) =~= db.blocks@.subrange(0, i + 1));
            assert(block_uids(db.blocks@)[i as int] == row.uid);
        }
        if row.is_solidified && row.height <= safe {
            let copy = row.copy();
            proof {
                assert(block_uids(kept@.push(copy)) =~= block_uids(kept@).push(copy.uid));
                assert forall|a: int| 0 <= a < kept@.len() implies block_uids(kept@)[a]
                    < copy.uid by {
                    assert(kept@[a].uid < db.blocks@[i as int].uid);
                }
                lemma_ascending_push(block_uids(kept@), copy.uid, db.last_block_uid);
                assert forall|a: int, j: int|
                    #![trigger kept@.push(copy)[a], db.blocks@[j]]
                    0 <= a < kept@.push(copy).len() && i + 1 <= j < n implies kept@.push(
                    copy,
                )[a].uid < db.blocks@[j].uid by {
                    if a == kept@.len() {
                        assert(block_uids(db.blocks@)[i as int] < block_uids(db.blocks@)[j]);
                    }
                }
            }
            kept.push(copy);
        }
        i = i + 1;
    }
    assert(db.blocks@.subrange(0, i as int) =~= db.blocks@);
    db.blocks = kept;
    db.cascade();
    let tip = if db.blocks.len() > 0 {
        db.blocks[db.blocks.len() - 1].height
    } else {
        0
    };
    let m = db.safe_heights.len();
    let mut k: usize = 0;
    let ghost after_cascade = *db;
    while k < m
        invariant
            k <= m,
            m == db.safe_heights@.len(),
            m == old(db).safe_heights@.len(),
            db.wf(),
            tip == last_height(db.blocks@),
            *db == (Db { safe_heights: db.safe_heights, ..after_cascade }),
            forall|i: int|
                0 <= i < m ==> (#[trigger] db.safe_heights@[i]).table_name == old(
                    db,
                ).safe_heights@[i].table_name,
            forall|i: int| 0 <= i < k ==> (#[trigger] db.safe_heights@[i]).height == tip,
        decreases m - k,
    {
        let ghost before = db.safe_heights@;
        let mut row = db.safe_heights.remove(k);
        row.height = tip;
        db.safe_heights.insert(k, row);
        proof {
            assert(db.safe_heights@ =~= before.update(
                k as int,
                SafeHeightRow { table_name: before[k as int].table_name, height: tip },
            ));
            assert(table_names(db.safe_heights@) =~= table_names(before));
        }
        k = k + 1;
    }
}

/// The height from which the stream is asked: the configured one, or the one
/// after the latest solidified block if that is greater.
pub fn start_height(last_height: Option<i32>, configured: i32) -> (h: i32)
    requires
        last_height != Some(i32::MAX),
    ensures
        h == match last_height {
            None => configured,
            Some(last) => if last + 1 > configured {
                (last + 1) as i32
            } else {
                configured
            },
        },
{
    match last_height {
        None => configured,
        Some(last) => if last + 1 > configured {
            last + 1
        } else {
            configured
        },
    }
}

/// Seconds that the distribution worker rests after a round: none when it
/// took up a task, the idle time when none waited.
pub fn idle_seconds(tasks_processed: u8) -> (s: u64)
    ensures
        s == if tasks_processed == 0 {
            DISTRIBUTION_IDLE_SECS
        } else {
            0
        },
{
    if tasks_processed == 0 {
        DISTRIBUTION_IDLE_SECS
    } else {
        0
    }
}

/// The two analyzers of one run of the consumer.
#[derive(Debug)]
pub struct Consumer {
    pub blocks: BlockAnalyzer,
    pub balances: BalanceAnalyzer,
}

/// An update with the key that the block analyzer gave it.
pub open spec fn tagged(block: BlockchainUpdateInfo, uid: i64) -> BlockchainUpdateInfo {
    BlockchainUpdateInfo { uid: Some(uid), ..block }
}

/// What one update does to the analyzers and the store: first to the
/// ledger, then, under the key that the ledger gave, to the balances.
pub open spec fn handled(
    pre: Consumer,
    pre_db: Db,
    block: BlockchainUpdateInfo,
    post: Consumer,
    post_db: Db,
    uid: i64,
) -> bool {
    exists|mid: Db| #[trigger]
        crate::waves::bu::blocks::sent(pre.blocks, pre_db, block, post.blocks, mid, uid)
            && crate::waves::bu::balance_updates::sent(
            chunk_view(pre.balances.chunk@),
            mid,
            tagged(block, uid),
            chunk_view(post.balances.chunk@),
            post_db,
        )
}

impl Consumer {
    pub fn new() -> (r: Self)
        ensures
            !r.blocks.was_microblocks,
            r.blocks.save_solidified,
            r.balances.chunk@.len() == 0,
    {
        Consumer { blocks: BlockAnalyzer::new(), balances: BalanceAnalyzer::new() }
    }

    /// Takes one update of the stream through both analyzers and hands it
    /// back with its key.
    pub fn handle(&mut self, db: &mut Db, block: BlockchainUpdateInfo) -> (r: BlockchainUpdateInfo)
        requires
            old(db).wf(),
            admits(old(self).blocks, *old(db), block),
            block.height is Some,
            has_room(*old(db), (old(self).balances.chunk@.len() + entry_bound(block)) as int),
        ensures
            final(db).wf(),
            r.uid is Some,
            r == tagged(block, r.uid->0),
            handled(*old(self), *old(db), block, *final(self), *final(db), r.uid->0),
    {
        let ghost given = block;
        let uid = self.blocks.send(db, &block);
        let ghost mid = *db;
        let mut block = block;
        block.uid = Some(uid);
        proof {
            assert(block == tagged(given, uid));
            assert(entry_bound(block) == entry_bound(given));
            lemma_entry_bound(block);
            old(db).balances@.lemma_filter_len(
                |b: crate::db::BalanceRow| block_uids(db.blocks@).contains(b.block_uid),
            );
        }
        self.balances.send(db, &block);
        proof {
            assert(crate::waves::bu::blocks::sent(
                old(self).blocks,
                *old(db),
                given,
                self.blocks,
                mid,
                uid,
            ));
        }
        block
    }
}

} // verus!
