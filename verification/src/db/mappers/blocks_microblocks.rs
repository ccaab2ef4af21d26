//! The block ledger: an append-only log of block and microblock records with
//! solidification and rollback.

use crate::db::{
    block_uids, lemma_contains_after_push, surviving_balances, surviving_index, BlockRow, Db,
    RollbackRow,
};
use crate::text::push_i64;
use crate::waves::BlockType;
use vstd::prelude::*;
use vstd::string::*;

verus! {

/// Identity, height and time of a block.
#[derive(Clone, Debug)]
pub struct Block {
    pub id: String,
    pub height: u32,
    pub time_stamp: i64,
}

/// A height as the ledger stores it: the same 32 bits, read as a signed number.
pub open spec fn stored_height(h: u32) -> i32 {
    if h <= i32::MAX {
        h as i32
    } else {
        (h - 0x1_0000_0000) as i32
    }
}

pub fn to_stored_height(h: u32) -> (r: i32)
    ensures
        r == stored_height(h),
{
    if h <= 0x7fff_ffff {
        h as i32
    } else {
        ((h - 0x8000_0000) as i32) + i32::MIN
    }
}

/// A stored height read back as an unsigned number.
pub open spec fn shown_height(h: i32) -> u32 {
    if h >= 0 {
        h as u32
    } else {
        (h + 0x1_0000_0000) as u32
    }
}

pub fn to_shown_height(h: i32) -> (r: u32)
    ensures
        r == shown_height(h),
{
    if h >= 0 {
        h as u32
    } else {
        ((h - i32::MIN) as u32) + 0x8000_0000
    }
}

/// Whole seconds of a time stamp in milliseconds, rounded towards zero.
pub open spec fn whole_seconds(time_stamp: i64) -> int {
    if time_stamp >= 0 {
        time_stamp / 1000
    } else {
        -((-time_stamp) / 1000)
    }
}

pub fn to_whole_seconds(time_stamp: i64) -> (r: i64)
    ensures
        r == whole_seconds(time_stamp),
{
    if time_stamp >= 0 {
        ((time_stamp as u64) / 1000) as i64
    } else if time_stamp == i64::MIN {
        -9223372036854775
    } else {
        -((((-time_stamp) as u64) / 1000) as i64)
    }
}

/// A condition on one record of the ledger.
#[derive(Debug)]
pub enum BlockFilter {
    /// Every record.
    Any,
    /// A block that is solidified.
    DurableBlock,
    /// A solidified record.
    Solidified,
    /// A record with this identifier.
    WithId(String),
    /// An unsolidified record that carries a time stamp.
    PendingBlock,
    /// An unsolidified record without a time stamp.
    PendingMicroBlock,
    /// A record at or below this height.
    HeightAtMost(i32),
    /// A record whose time stamp, in whole seconds, is at most this.
    SecondsAtMost(i64),
}

impl BlockFilter {
    pub open spec fn holds(&self, r: BlockRow) -> bool {
        match *self {
            BlockFilter::Any => true,
            BlockFilter::DurableBlock => r.block_type == BlockType::Block && r.is_solidified,
            BlockFilter::Solidified => r.is_solidified,
            BlockFilter::WithId(id) => r.id@ == id@,
            BlockFilter::PendingBlock => !r.is_solidified && r.time_stamp != 0,
            BlockFilter::PendingMicroBlock => !r.is_solidified && r.time_stamp == 0,
            BlockFilter::HeightAtMost(h) => r.height <= h,
            BlockFilter::SecondsAtMost(t) => whole_seconds(r.time_stamp) <= t,
        }
    }

    pub fn test(&self, r: &BlockRow) -> (b: bool)
        ensures
            b == self.holds(*r),
    {
        match self {
            BlockFilter::Any => true,
            BlockFilter::DurableBlock => r.block_type == BlockType::Block && r.is_solidified,
            BlockFilter::Solidified => r.is_solidified,
            BlockFilter::WithId(id) => r.id == *id,
            BlockFilter::PendingBlock => !r.is_solidified && r.time_stamp != 0,
            BlockFilter::PendingMicroBlock => !r.is_solidified && r.time_stamp == 0,
            BlockFilter::HeightAtMost(h) => r.height <= *h,
            BlockFilter::SecondsAtMost(t) => to_whole_seconds(r.time_stamp) <= *t,
        }
    }
}

/// Position of the last record, in key order, on which the filter holds;
/// `-1` when it holds on none.
pub open spec fn last_index_where(rows: Seq<BlockRow>, f: BlockFilter) -> int
    decreases rows.len(),
{
    if rows.len() == 0 {
        -1
    } else if f.holds(rows.last()) {
        rows.len() - 1
    } else {
        last_index_where(rows.drop_last(), f)
    }
}

/// `last_index_where` names a record on which the filter holds, after which
/// it holds on none; `-1` stands for no such record at all.
pub proof fn lemma_last_index_where(rows: Seq<BlockRow>, f: BlockFilter)
    ensures
        -1 <= last_index_where(rows, f) < rows.len(),
        last_index_where(rows, f) >= 0 ==> f.holds(rows[last_index_where(rows, f)]),
        forall|j: int| last_index_where(rows, f) < j < rows.len() ==> !f.holds(#[trigger] rows[j]),
    decreases rows.len(),
{
    if rows.len() > 0 && !f.holds(rows.last()) {
        lemma_last_index_where(rows.drop_last(), f);
        assert forall|j: int| last_index_where(rows, f) < j < rows.len() implies !f.holds(
            #[trigger] rows[j],
        ) by {
            if j < rows.len() - 1 {
                assert(rows.drop_last()[j] == rows[j]);
            }
        }
    }
}

/// Finds the last record on which the filter holds.
pub fn last_matching(rows: &Vec<BlockRow>, f: &BlockFilter) -> (r: Option<usize>)
    ensures
        match r {
            Some(i) => i as int == last_index_where(rows@, *f) && i < rows@.len(),
            None => last_index_where(rows@, *f) == -1,
        },
{
    let mut i: usize = rows.len();
    assert(rows@.subrange(0, i as int) =~= rows@);
    while i > 0
        invariant
            i <= rows@.len(),
            last_index_where(rows@, *f) == last_index_where(rows@.subrange(0, i as int), *f),
        decreases i,
    {
        if f.test(&rows[i - 1]) {
            return Some(i - 1);
        }
        assert(rows@.subrange(0, i as int).drop_last() =~= rows@.subrange(0, i - 1));
        i = i - 1;
    }
    None
}

/// The ledger after one more record was appended.
pub open spec fn appended(
    rows: Seq<BlockRow>,
    uid: i64,
    block_id: String,
    height: u32,
    time_stamp: i64,
    solidified: bool,
    block_type: BlockType,
) -> Seq<BlockRow> {
    rows.push(
        BlockRow {
            uid,
            id: block_id,
            microblock_id: None,
            height: stored_height(height),
            time_stamp,
            is_solidified: solidified,
            block_type,
        },
    )
}

/// Appends a record; its key is the next of the sequence.
pub fn save(
    db: &mut Db,
    block_id: &String,
    height: &u32,
    time_stamp: &i64,
    solidified: bool,
    block_type: &BlockType,
) -> (uid: i64)
    requires
        old(db).wf(),
        old(db).last_block_uid < i64::MAX,
    ensures
        final(db).wf(),
        uid == old(db).last_block_uid + 1,
        final(db).blocks@ == appended(
            old(db).blocks@,
            uid,
            *block_id,
            *height,
            *time_stamp,
            solidified,
            *block_type,
        ),
        *final(db) == (Db { blocks: final(db).blocks, last_block_uid: uid, ..*old(db) }),
{
    let uid = db.last_block_uid + 1;
    db.blocks.push(
        BlockRow {
            uid,
            id: block_id.clone(),
            microblock_id: None,
            height: to_stored_height(*height),
            time_stamp: *time_stamp,
            is_solidified: solidified,
            block_type: *block_type,
        },
    );
    db.last_block_uid = uid;
    proof {
        assert(block_uids(db.blocks@) =~= block_uids(old(db).blocks@).push(uid));
        lemma_contains_after_push(block_uids(old(db).blocks@), uid);
    }
    uid
}

/// The ledger with its last record marked as not solidified.
pub open spec fn unsolidified_tail(rows: Seq<BlockRow>) -> Seq<BlockRow> {
    if rows.len() == 0 {
        rows
    } else {
        rows.update(rows.len() - 1, BlockRow { is_solidified: false, ..rows.last() })
    }
}

/// Marks the record with the greatest key as not solidified, so that the next
/// solidification rewrites it.
pub fn unsolidify_last_block(db: &mut Db)
    requires
        old(db).wf(),
        old(db).blocks@.len() > 0,
    ensures
        final(db).wf(),
        final(db).blocks@ == unsolidified_tail(old(db).blocks@),
        *final(db) == (Db { blocks: final(db).blocks, ..*old(db) }),
{
    let mut last = db.blocks.pop().unwrap();
    last.is_solidified = false;
    db.blocks.push(last);
    proof {
        assert(db.blocks@ =~= unsolidified_tail(old(db).blocks@));
        assert(block_uids(db.blocks@) =~= block_uids(old(db).blocks@));
    }
}

/// Height of the latest solidified block, if there is one.
pub fn get_last_height(db: &Db) -> (r: Option<i32>)
    ensures
        r == ({
            let i = last_index_where(db.blocks@, BlockFilter::DurableBlock);
            if i >= 0 {
                Some(db.blocks@[i].height)
            } else {
                None
            }
        }),
{
    match last_matching(&db.blocks, &BlockFilter::DurableBlock) {
        Some(i) => Some(db.blocks[i].height),
        None => None,
    }
}

/// The records that a rollback to `block_id` keeps: all up to the last one
/// with that identifier; all of them when none has it.
pub open spec fn rolled_back(rows: Seq<BlockRow>, block_id: String) -> Seq<BlockRow> {
    let k = last_index_where(rows, BlockFilter::WithId(block_id));
    if k >= 0 {
        rows.subrange(0, k + 1)
    } else {
        rows
    }
}

/// The records that a rollback to `block_id` removes, in key order.
pub open spec fn rolled_away(rows: Seq<BlockRow>, block_id: String) -> Seq<BlockRow> {
    let k = last_index_where(rows, BlockFilter::WithId(block_id));
    if k >= 0 {
        rows.subrange(k + 1, rows.len() as int)
    } else {
        Seq::empty()
    }
}

pub open spec fn bool_text(b: bool) -> Seq<char> {
    if b {
        "true"@
    } else {
        "false"@
    }
}

/// One removed record as the audit trail shows it: key, identifier, time
/// stamp, height and solidification, separated by commas.
pub open spec fn audit_line(r: BlockRow) -> Seq<char> {
    crate::text::decimal(r.uid as int) + seq![','] + r.id@ + seq![','] + crate::text::decimal(
        r.time_stamp as int,
    ) + seq![','] + crate::text::decimal(r.height as int) + seq![','] + bool_text(r.is_solidified)
}

/// The audit lines of some records, one per line.
pub open spec fn audit_lines(rows: Seq<BlockRow>) -> Seq<char>
    decreases rows.len(),
{
    if rows.len() == 0 {
        Seq::empty()
    } else if rows.len() == 1 {
        audit_line(rows[0])
    } else {
        audit_lines(rows.drop_last()) + seq!['\n'] + audit_line(rows.last())
    }
}

fn push_audit_line(s: &mut String, r: &BlockRow)
    ensures
        final(s)@ == old(s)@ + audit_line(*r),
{
    push_i64(s, r.uid);
    s.push(',');
    s.append(r.id.as_str());
    s.push(',');
    push_i64(s, r.time_stamp);
    s.push(',');
    push_i64(s, r.height as i64);
    s.push(',');
    if r.is_solidified {
        s.append("true");
    } else {
        s.append("false");
    }
    assert(s@ =~= old(s)@ + audit_line(*r));
}

/// What the audit trail says of some removed records, given in key order:
/// height and time stamp of the last one, `0` for none, and a line for each.
pub fn audit_of(removed: &Vec<BlockRow>) -> (r: (i32, i64, String))
    ensures
        r.0 == if removed@.len() > 0 {
            removed@.last().height
        } else {
            0
        },
        r.1 == if removed@.len() > 0 {
            removed@.last().time_stamp
        } else {
            0
        },
        r.2@ == audit_lines(removed@),
{
    let mut lines = String::new();
    let mut max_height: i32 = 0;
    let mut max_time_stamp: i64 = 0;
    let mut i: usize = 0;
    assert(removed@.subrange(0, 0) =~= Seq::<BlockRow>::empty());
    while i < removed.len()
        invariant
            i <= removed@.len(),
            lines@ == audit_lines(removed@.subrange(0, i as int)),
            i > 0 ==> max_height == removed@[i - 1].height && max_time_stamp
                == removed@[i - 1].time_stamp,
            i == 0 ==> max_height == 0 && max_time_stamp == 0,
        decreases removed@.len() - i,
    {
        if i > 0 {
            lines.push('\n');
        }
        push_audit_line(&mut lines, &removed[i]);
        max_height = removed[i].height;
        max_time_stamp = removed[i].time_stamp;
        proof {
            let next = removed@.subrange(0, i + 1);
            assert(next.drop_last() =~= removed@.subrange(0, i as int));
            assert(next.last() == removed@[i as int]);
            assert(lines@ =~= audit_lines(next));
        }
        i = i + 1;
    }
    assert(removed@.subrange(0, i as int) =~= removed@);
    (max_height, max_time_stamp, lines)
}

/// What a rollback writes to the audit trail.
pub open spec fn is_audit_of(
    audit: RollbackRow,
    removed: Seq<BlockRow>,
    block_id: String,
    kept_uid: i64,
) -> bool {
    &&& audit.max_uid_kept == kept_uid
    &&& audit.id == block_id
    &&& audit.max_height == if removed.len() > 0 {
        removed.last().height
    } else {
        0
    }
    &&& audit.max_time_stamp == if removed.len() > 0 {
        removed.last().time_stamp
    } else {
        0
    }
    &&& audit.deleted_blocks_data@ == audit_lines(removed)
}

/// Appends one record to the audit trail of rollbacks.
pub fn save_rollback_info(
    db: &mut Db,
    max_uid: &i64,
    block_id: &String,
    max_height: &i32,
    max_time_stamp: &i64,
    deleted_blocks_data: &String,
)
    requires
        old(db).wf(),
        old(db).last_rollback_uid < i64::MAX,
    ensures
        final(db).wf(),
        final(db).rollbacks@ == old(db).rollbacks@.push(
            RollbackRow {
                uid: (old(db).last_rollback_uid + 1) as i64,
                max_uid_kept: *max_uid,
                id: *block_id,
                max_height: *max_height,
                max_time_stamp: *max_time_stamp,
                deleted_blocks_data: *deleted_blocks_data,
            },
        ),
        *final(db) == (Db {
            rollbacks: final(db).rollbacks,
            last_rollback_uid: (old(db).last_rollback_uid + 1) as i64,
            ..*old(db)
        }),
{
    let uid = db.last_rollback_uid + 1;
    db.rollbacks.push(
        RollbackRow {
            uid,
            max_uid_kept: *max_uid,
            id: block_id.clone(),
            max_height: *max_height,
            max_time_stamp: *max_time_stamp,
            deleted_blocks_data: deleted_blocks_data.clone(),
        },
    );
    db.last_rollback_uid = uid;
}

/// Removes every record after the last one with identifier `block_id`, and
/// with them the balance rows of the removed records and the index rows of
/// those. What was removed goes to the audit trail. Returns the greatest key
/// that is left.
pub fn rollback(db: &mut Db, block_id: &String) -> (uid: i64)
    requires
        old(db).wf(),
        old(db).blocks@.len() > 0,
        old(db).last_rollback_uid < i64::MAX,
    ensures
        final(db).wf(),
        final(db).blocks@ == rolled_back(old(db).blocks@, *block_id),
        final(db).blocks@.len() > 0,
        uid == final(db).blocks@.last().uid,
        final(db).balances@ == surviving_balances(old(db).balances@, final(db).blocks@),
        final(db).max_uids@ == surviving_index(old(db).max_uids@, final(db).balances@),
        final(db).rollbacks@.len() == old(db).rollbacks@.len() + 1,
        final(db).rollbacks@.drop_last() == old(db).rollbacks@,
        final(db).rollbacks@.last().uid == old(db).last_rollback_uid + 1,
        is_audit_of(
            final(db).rollbacks@.last(),
            rolled_away(old(db).blocks@, *block_id),
            *block_id,
            uid,
        ),
        *final(db) == (Db {
            blocks: final(db).blocks,
            balances: final(db).balances,
            max_uids: final(db).max_uids,
            rollbacks: final(db).rollbacks,
            last_rollback_uid: (old(db).last_rollback_uid + 1) as i64,
            ..*old(db)
        }),
{
    let filter = BlockFilter::WithId(block_id.clone());
    let n = db.blocks.len();
    let keep: usize = match last_matching(&db.blocks, &filter) {
        Some(k) => k + 1,
        None => n,
    };
    let removed = db.blocks.split_off(keep);
    let (max_height, max_time_stamp, lines) = audit_of(&removed);
    proof {
        assert(removed@ =~= rolled_away(old(db).blocks@, *block_id));
        assert(db.blocks@ =~= rolled_back(old(db).blocks@, *block_id));
        assert(block_uids(db.blocks@) =~= block_uids(old(db).blocks@).subrange(0, keep as int));
    }
    db.cascade();
    let uid = db.blocks[keep - 1].uid;
    save_rollback_info(db, &uid, block_id, &max_height, &max_time_stamp, &lines);
    proof {
        assert(db.rollbacks@.drop_last() =~= old(db).rollbacks@);
    }
    uid
}

/// One record after solidification under the identifier `ref_block_id`: a
/// solidified record stays as it is; a pending block takes the new
/// identifier and keeps its own as `microblock_id`; a pending microblock does
/// the same and inherits height and time stamp.
pub open spec fn solidified_row(
    r: BlockRow,
    ref_block_id: String,
    height: i32,
    time_stamp: i64,
) -> BlockRow {
    if r.is_solidified {
        r
    } else if r.time_stamp != 0 {
        BlockRow { id: ref_block_id, microblock_id: Some(r.id), is_solidified: true, ..r }
    } else {
        BlockRow {
            id: ref_block_id,
            microblock_id: Some(r.id),
            height,
            time_stamp,
            is_solidified: true,
            ..r
        }
    }
}

/// The ledger after solidification: with no pending block nothing changes;
/// otherwise every pending record is rewritten, microblocks inheriting from
/// the last pending block.
pub open spec fn solidified(rows: Seq<BlockRow>, ref_block_id: String) -> Seq<BlockRow> {
    let d = last_index_where(rows, BlockFilter::PendingBlock);
    if d >= 0 {
        rows.map_values(
            |r: BlockRow| solidified_row(r, ref_block_id, rows[d].height, rows[d].time_stamp),
        )
    } else {
        rows
    }
}

/// What solidification reports: key of the last microblock it rewrote, with
/// the height and time stamp that the microblocks inherited.
pub open spec fn solidify_result(rows: Seq<BlockRow>) -> Option<(i64, i32, i64)> {
    let d = last_index_where(rows, BlockFilter::PendingBlock);
    let m = last_index_where(rows, BlockFilter::PendingMicroBlock);
    if d >= 0 && m >= 0 {
        Some((rows[m].uid, rows[d].height, rows[d].time_stamp))
    } else {
        None
    }
}

/// Solidifies the pending records under the identifier of the block that the
/// next block refers to. Keys do not change.
pub fn solidify(db: &mut Db, ref_block_id: &String) -> (r: Option<(i64, i32, i64)>)
    requires
        old(db).wf(),
    ensures
        final(db).wf(),
        final(db).blocks@ == solidified(old(db).blocks@, *ref_block_id),
        block_uids(final(db).blocks@) == block_uids(old(db).blocks@),
        r == solidify_result(old(db).blocks@),
        *final(db) == (Db { blocks: final(db).blocks, ..*old(db) }),
{
    let donor = match last_matching(&db.blocks, &BlockFilter::PendingBlock) {
        Some(d) => d,
        None => {
            return None;
        },
    };
    let height = db.blocks[donor].height;
    let time_stamp = db.blocks[donor].time_stamp;
    let result = match last_matching(&db.blocks, &BlockFilter::PendingMicroBlock) {
        Some(m) => Some((db.blocks[m].uid, height, time_stamp)),
        None => None,
    };
    let n = db.blocks.len();
    let mut out: Vec<BlockRow> = Vec::new();
    let mut i: usize = 0;
    while i < n
        invariant
            i <= n,
            n == db.blocks@.len(),
            out@.len() == i,
            forall|k: int|
                0 <= k < i ==> out@[k] == solidified_row(
                    db.blocks@[k],
                    *ref_block_id,
                    height,
                    time_stamp,
                ),
        decreases n - i,
    {
        let row = &db.blocks[i];
        let next = if row.is_solidified {
            row.copy()
        } else if row.time_stamp != 0 {
            BlockRow {
                uid: row.uid,
                id: ref_block_id.clone(),
                microblock_id: Some(row.id.clone()),
                height: row.height,
                time_stamp: row.time_stamp,
                is_solidified: true,
                block_type: row.block_type,
            }
        } else {
            BlockRow {
                uid: row.uid,
                id: ref_block_id.clone(),
                microblock_id: Some(row.id.clone()),
                height,
                time_stamp,
                is_solidified: true,
                block_type: row.block_type,
            }
        };
        out.push(next);
        i = i + 1;
    }
    proof {
        assert(out@ =~= solidified(db.blocks@, *ref_block_id));
        assert(block_uids(out@) =~= block_uids(db.blocks@));
    }
    db.blocks = out;
    result
}

/// Solidification keeps every record under its key, in its place: the
/// record that a microblock becomes has the key that the microblock had.
/// Where a pending block was found, no record is left pending.
pub proof fn lemma_solidified_keeps_keys(rows: Seq<BlockRow>, ref_block_id: String)
    ensures
        solidified(rows, ref_block_id).len() == rows.len(),
        forall|i: int|
            0 <= i < rows.len() ==> (#[trigger] solidified(rows, ref_block_id)[i]).uid
                == rows[i].uid,
        last_index_where(rows, BlockFilter::PendingBlock) >= 0 ==> forall|i: int|
            0 <= i < rows.len() ==> (#[trigger] solidified(rows, ref_block_id)[i]).is_solidified,
{
}

} // verus!
