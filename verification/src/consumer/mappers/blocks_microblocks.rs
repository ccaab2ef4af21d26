//! The plain ledger: records without a kind, rollbacks without an audit
//! trail, solidification without a note of the identifier that a record had.

use crate::db::mappers::blocks_microblocks::{
    appended, last_index_where, last_matching, unsolidified_tail, BlockFilter,
};
use crate::db::{block_uids, surviving_balances, surviving_index, BlockRow, Db};
use crate::waves::BlockType;
use vstd::prelude::*;

verus! {

/// Identity, height and time of a block.
#[derive(Clone, Debug)]
pub struct Block {
    pub id: String,
    pub height: u32,
    pub time_stamp: i64,
}

/// Marks the record with the greatest key as not solidified.
pub fn unsolidify_last_block(db: &mut Db)
    requires
        old(db).wf(),
        old(db).blocks@.len() > 0,
    ensures
        final(db).wf(),
        final(db).blocks@ == unsolidified_tail(old(db).blocks@),
        *final(db) == (Db { blocks: final(db).blocks, ..*old(db) }),
{
    crate::db::mappers::blocks_microblocks::unsolidify_last_block(db)
}

/// Appends a record of no stated kind.
pub fn save(db: &mut Db, block_id: &String, height: &u32, time_stamp: &i64, solidified: bool) -> (uid:
    i64)
    requires
        old(db).wf(),
        old(db).last_block_uid < i64::MAX,
    ensures
        final(db).wf(),
        uid == old(db).last_block_uid + 1,
        final(db).blocks@ == appended(
            old(db).blocks@,
            uid,
            *block_id,
            *height,
            *time_stamp,
            solidified,
            BlockType::EMPTY,
        ),
        *final(db) == (Db { blocks: final(db).blocks, last_block_uid: uid, ..*old(db) }),
{
    crate::db::mappers::blocks_microblocks::save(
        db,
        block_id,
        height,
        time_stamp,
        solidified,
        &BlockType::EMPTY,
    )
}

/// Height of the record with the greatest key, if there is a record.
pub fn get_last_height(db: &Db) -> (r: Option<i32>)
    ensures
        r == if db.blocks@.len() > 0 {
            Some(db.blocks@.last().height)
        } else {
            None
        },
{
    if db.blocks.len() > 0 {
        Some(db.blocks[db.blocks.len() - 1].height)
    } else {
        None
    }
}

/// Position of the first record with an identifier; `-1` when none has it.
pub open spec fn first_index_with_id(rows: Seq<BlockRow>, block_id: Seq<char>) -> int
    decreases rows.len(),
{
    if rows.len() == 0 {
        -1
    } else {
        let before = first_index_with_id(rows.drop_last(), block_id);
        if before >= 0 {
            before
        } else if rows.last().id@ == block_id {
            rows.len() - 1
        } else {
            -1
        }
    }
}

/// The records that stay when what follows the first record with the
/// identifier is removed; all of them when none has it.
pub open spec fn cut_after_first(rows: Seq<BlockRow>, block_id: Seq<char>) -> Seq<BlockRow> {
    let k = first_index_with_id(rows, block_id);
    if k >= 0 {
        rows.subrange(0, k + 1)
    } else {
        rows
    }
}

/// Removes every record after the first one with identifier `block_id`, with
/// the balance rows and index rows that depend on what is removed. Returns
/// the greatest key that is left.
pub fn rollback_microblocks(db: &mut Db, block_id: &String) -> (uid: i64)
    requires
        old(db).wf(),
        old(db).blocks@.len() > 0,
    ensures
        final(db).wf(),
        final(db).blocks@ == cut_after_first(old(db).blocks@, block_id@),
        final(db).blocks@.len() > 0,
        uid == final(db).blocks@.last().uid,
        final(db).balances@ == surviving_balances(old(db).balances@, final(db).blocks@),
        final(db).max_uids@ == surviving_index(old(db).max_uids@, final(db).balances@),
        *final(db) == (Db {
            blocks: final(db).blocks,
            balances: final(db).balances,
            max_uids: final(db).max_uids,
            ..*old(db)
        }),
{
    let n = db.blocks.len();
    let mut i: usize = 0;
    assert(db.blocks@.subrange(0, 0) =~= Seq::<BlockRow>::empty());
    while i < n && !(db.blocks[i].id == *block_id)
        invariant
            i <= n,
            n == db.blocks@.len(),
            *db == *old(db),
            first_index_with_id(db.blocks@.subrange(0, i as int), block_id@) == -1,
        decreases n - i,
    {
        proof {
            assert(db.blocks@.subrange(0, i + 1).drop_last() =~= db.blocks@.subrange(0, i as int));
            assert(db.blocks@.subrange(0, i + 1).last() == db.blocks@[i as int]);
        }
        i = i + 1;
    }
    proof {
        lemma_first_found(db.blocks@, block_id@, i as int);
    }
    let keep = if i < n {
        i + 1
    } else {
        n
    };
    db.blocks.truncate(keep);
    proof {
        assert(db.blocks@ =~= cut_after_first(old(db).blocks@, block_id@));
        assert(block_uids(db.blocks@) =~= block_uids(old(db).blocks@).subrange(0, keep as int));
    }
    db.cascade();
    db.blocks[keep - 1].uid
}

/// With no record of the identifier among the first `i`, the first one is
/// the record at `i` if it has the identifier, and there is none if `i` is
/// past the end.
proof fn lemma_first_found(rows: Seq<BlockRow>, block_id: Seq<char>, i: int)
    requires
        0 <= i <= rows.len(),
        first_index_with_id(rows.subrange(0, i), block_id) == -1,
        i < rows.len() ==> rows[i].id@ == block_id,
    ensures
        first_index_with_id(rows, block_id) == if i < rows.len() {
            i
        } else {
            -1
        },
    decreases rows.len() - i,
{
    if i == rows.len() {
        assert(rows.subrange(0, i) =~= rows);
    } else {
        lemma_prefix_keeps_first(rows, block_id, i, rows.len() as int);
        assert(rows.subrange(0, rows.len() as int) =~= rows);
    }
}

/// The first record with the identifier stays the first in every longer
/// part of the ledger.
proof fn lemma_prefix_keeps_first(rows: Seq<BlockRow>, block_id: Seq<char>, i: int, n: int)
    requires
        0 <= i < n <= rows.len(),
        first_index_with_id(rows.subrange(0, i), block_id) == -1,
        rows[i].id@ == block_id,
    ensures
        first_index_with_id(rows.subrange(0, n), block_id) == i,
    decreases n,
{
    let part = rows.subrange(0, n);
    if n == i + 1 {
        assert(part.drop_last() =~= rows.subrange(0, i));
        assert(part.last() == rows[i]);
    } else {
        lemma_prefix_keeps_first(rows, block_id, i, n - 1);
        assert(part.drop_last() =~= rows.subrange(0, n - 1));
    }
}

/// One record after plain solidification: a pending block takes the new
/// identifier; a record without a time stamp takes it too and inherits
/// height and time stamp; every other record stays as it is.
pub open spec fn plainly_solidified_row(
    r: BlockRow,
    ref_block_id: String,
    height: i32,
    time_stamp: i64,
) -> BlockRow {
    if r.time_stamp != 0 && !r.is_solidified {
        BlockRow { id: ref_block_id, is_solidified: true, ..r }
    } else if r.time_stamp == 0 {
        BlockRow { id: ref_block_id, height, time_stamp, is_solidified: true, ..r }
    } else {
        r
    }
}

/// The ledger after plain solidification: with no pending block nothing
/// changes; otherwise the records inherit from the last pending block.
pub open spec fn plainly_solidified(rows: Seq<BlockRow>, ref_block_id: String) -> Seq<BlockRow> {
    let d = last_index_where(rows, BlockFilter::PendingBlock);
    if d >= 0 {
        rows.map_values(
            |r: BlockRow|
                plainly_solidified_row(r, ref_block_id, rows[d].height, rows[d].time_stamp),
        )
    } else {
        rows
    }
}

/// Whether a record has no time stamp.
pub open spec fn has_untimed(rows: Seq<BlockRow>) -> bool {
    exists|i: int| 0 <= i < rows.len() && (#[trigger] rows[i]).time_stamp == 0
}

/// Solidifies the pending records under the identifier that the next block
/// refers to, without a note of the identifiers that they had. Returns the
/// time stamp that the records without one inherited, if there was such a
/// record and a pending block to inherit from.
pub fn solidify_microblocks(db: &mut Db, ref_block_id: &String) -> (r: Option<i64>)
    requires
        old(db).wf(),
    ensures
        final(db).wf(),
        final(db).blocks@ == plainly_solidified(old(db).blocks@, *ref_block_id),
        block_uids(final(db).blocks@) == block_uids(old(db).blocks@),
        r == ({
            let d = last_index_where(old(db).blocks@, BlockFilter::PendingBlock);
            if d >= 0 && has_untimed(old(db).blocks@) {
                Some(old(db).blocks@[d].time_stamp)
            } else {
                None
            }
        }),
        *final(db) == (Db { blocks: final(db).blocks, ..*old(db) }),
{
    let donor = match last_matching(&db.blocks, &BlockFilter::PendingBlock) {
        Some(d) => d,
        None => {
            return None;
        },
    };
    let height = db.blocks[donor].height;
    let time_stamp = db.blocks[donor].time_stamp;
    let n = db.blocks.len();
    let mut out: Vec<BlockRow> = Vec::new();
    let mut untimed = false;
    let mut i: usize = 0;
    while i < n
        invariant
            i <= n,
            n == db.blocks@.len(),
            out@.len() == i,
            untimed == has_untimed(db.blocks@.subrange(0, i as int)),
            forall|k: int|
                0 <= k < i ==> out@[k] == plainly_solidified_row(
                    db.blocks@[k],
                    *ref_block_id,
                    height,
                    time_stamp,
                ),
        decreases n - i,
    {
        let row = &db.blocks[i];
        proof {
            let part = db.blocks@.subrange(0, i as int);
            let next = db.blocks@.subrange(0, i + 1);
            if has_untimed(part) {
                let k = choose|k: int| 0 <= k < part.len() && (#[trigger] part[k]).time_stamp == 0;
                assert(next[k].time_stamp == 0);
            }
            if row.time_stamp == 0 {
                assert(next[i as int].time_stamp == 0);
            }
            if has_untimed(next) {
                let k = choose|k: int| 0 <= k < next.len() && (#[trigger] next[k]).time_stamp == 0;
                if k < i {
                    assert(part[k].time_stamp == 0);
                }
            }
        }
        let next = if row.time_stamp != 0 && !row.is_solidified {
            BlockRow {
                uid: row.uid,
                id: ref_block_id.clone(),
                microblock_id: match &row.microblock_id {
                    Some(m) => Some(m.clone()),
                    None => None,
                },
                height: row.height,
                time_stamp: row.time_stamp,
                is_solidified: true,
                block_type: row.block_type,
            }
        } else if row.time_stamp == 0 {
            untimed = true;
            BlockRow {
                uid: row.uid,
                id: ref_block_id.clone(),
                microblock_id: match &row.microblock_id {
                    Some(m) => Some(m.clone()),
                    None => None,
                },
                height,
                time_stamp,
                is_solidified: true,
                block_type: row.block_type,
            }
        } else {
            row.copy()
        };
        out.push(next);
        i = i + 1;
    }
    proof {
        assert(db.blocks@.subrange(0, n as int) =~= db.blocks@);
        assert(out@ =~= plainly_solidified(db.blocks@, *ref_block_id));
        assert(block_uids(out@) =~= block_uids(db.blocks@));
    }
    db.blocks = out;
    if untimed {
        Some(time_stamp)
    } else {
        None
    }
}

} // verus!
