//! The block analyzer: keeps the block ledger in step with the stream.

use crate::db::mappers::blocks_microblocks::{
    appended, is_audit_of, last_index_where, lemma_last_index_where,
    lemma_solidified_keeps_keys, rollback, rolled_away, rolled_back, save, solidified, solidify,
    unsolidified_tail, unsolidify_last_block, BlockFilter,
};
use crate::db::{surviving_balances, surviving_index, BlockRow, Db};
use crate::waves::{BlockType, BlockchainUpdateInfo};
use vstd::prelude::*;

verus! {

/// State of the block analyzer over one run of the consumer.
#[derive(Debug)]
pub struct Analyzer {
    pub was_microblocks: bool,
    pub save_solidified: bool,
}

/// Whether the analyzer can take an update: the update has a kind and the
/// fields that its kind is read by, the ledger has a record where one is
/// marked or a rollback looks for one, and its sequences have a key left.
pub open spec fn admits(analyzer: Analyzer, db: Db, block: BlockchainUpdateInfo) -> bool {
    &&& block.id is Some
    &&& match block.block_type {
        BlockType::MicroBlock => {
            &&& block.height is Some
            &&& analyzer.save_solidified ==> db.blocks@.len() > 0
            &&& db.last_block_uid < i64::MAX
        },
        BlockType::Block => {
            &&& block.height is Some
            &&& block.timestamp is Some
            &&& analyzer.was_microblocks ==> block.reference_block_id is Some
            &&& db.last_block_uid < i64::MAX
        },
        BlockType::Rollback => db.blocks@.len() > 0 && db.last_rollback_uid < i64::MAX,
        BlockType::EMPTY => false,
    }
}

/// What one update does to the analyzer and the ledger, and the key that
/// the update is known by afterwards.
///
/// A microblock is appended without a time stamp and not solidified; the
/// first one after a run of blocks marks the last record as not solidified
/// before. A block is appended with its time stamp, solidified as long as no
/// microblock was seen and pending from then on; after microblocks the
/// pending records are solidified first, under the identifier that the block
/// refers to. A rollback removes what follows the record it names and leaves
/// the analyzer as it is.
pub open spec fn sent(
    pre: Analyzer,
    pre_db: Db,
    block: BlockchainUpdateInfo,
    post: Analyzer,
    post_db: Db,
    uid: i64,
) -> bool {
    match block.block_type {
        BlockType::MicroBlock => {
            &&& post.was_microblocks
            &&& !post.save_solidified
            &&& uid == pre_db.last_block_uid + 1
            &&& post_db.blocks@ == appended(
                if pre.save_solidified {
                    unsolidified_tail(pre_db.blocks@)
                } else {
                    pre_db.blocks@
                },
                uid,
                block.id->0,
                block.height->0,
                0,
                false,
                BlockType::MicroBlock,
            )
            &&& post_db == (Db { blocks: post_db.blocks, last_block_uid: uid, ..pre_db })
        },
        BlockType::Block => {
            &&& !post.was_microblocks
            &&& post.save_solidified == pre.save_solidified
            &&& uid == pre_db.last_block_uid + 1
            &&& post_db.blocks@ == appended(
                if pre.was_microblocks {
                    solidified(pre_db.blocks@, block.reference_block_id->0)
                } else {
                    pre_db.blocks@
                },
                uid,
                block.id->0,
                block.height->0,
                block.timestamp->0,
                pre.save_solidified,
                BlockType::Block,
            )
            &&& post_db == (Db { blocks: post_db.blocks, last_block_uid: uid, ..pre_db })
        },
        BlockType::Rollback => {
            &&& post == pre
            &&& post_db.blocks@ == rolled_back(pre_db.blocks@, block.id->0)
            &&& post_db.blocks@.len() > 0
            &&& uid == post_db.blocks@.last().uid
            &&& post_db.balances@ == surviving_balances(pre_db.balances@, post_db.blocks@)
            &&& post_db.max_uids@ == surviving_index(pre_db.max_uids@, post_db.balances@)
            &&& post_db.rollbacks@.len() == pre_db.rollbacks@.len() + 1
            &&& post_db.rollbacks@.drop_last() == pre_db.rollbacks@
            &&& post_db.rollbacks@.last().uid == pre_db.last_rollback_uid + 1
            &&& is_audit_of(
                post_db.rollbacks@.last(),
                rolled_away(pre_db.blocks@, block.id->0),
                block.id->0,
                uid,
            )
            &&& post_db == (Db {
                blocks: post_db.blocks,
                balances: post_db.balances,
                max_uids: post_db.max_uids,
                rollbacks: post_db.rollbacks,
                last_rollback_uid: (pre_db.last_rollback_uid + 1) as i64,
                ..pre_db
            })
        },
        BlockType::EMPTY => false,
    }
}

/// One step on the ledger.
#[derive(Debug)]
pub enum LedgerAction {
    /// Mark the last record as not solidified.
    UnsolidifyLast,
    /// Solidify the pending records under this identifier.
    Solidify(String),
    /// Append a record.
    Append { block_id: String, height: u32, time_stamp: i64, solidified: bool, block_type: BlockType },
    /// Remove what follows the last record with this identifier.
    Rollback(String),
}

/// Whether an update has the fields that its kind is read by.
pub open spec fn complete(analyzer: Analyzer, block: BlockchainUpdateInfo) -> bool {
    &&& block.id is Some
    &&& match block.block_type {
        BlockType::MicroBlock => block.height is Some,
        BlockType::Block => {
            &&& block.height is Some
            &&& block.timestamp is Some
            &&& analyzer.was_microblocks ==> block.reference_block_id is Some
        },
        BlockType::Rollback => true,
        BlockType::EMPTY => false,
    }
}

/// Tests whether an update has the fields that its kind is read by.
pub fn is_complete(analyzer: &Analyzer, block: &BlockchainUpdateInfo) -> (b: bool)
    ensures
        b == complete(*analyzer, *block),
{
    block.id.is_some() && match block.block_type {
        BlockType::MicroBlock => block.height.is_some(),
        BlockType::Block => block.height.is_some() && block.timestamp.is_some() && (
        !analyzer.was_microblocks || block.reference_block_id.is_some()),
        BlockType::Rollback => true,
        BlockType::EMPTY => false,
    }
}

/// The steps that an update asks for, in order.
pub open spec fn plan(analyzer: Analyzer, block: BlockchainUpdateInfo) -> Seq<LedgerAction> {
    match block.block_type {
        BlockType::MicroBlock => {
            let append = LedgerAction::Append {
                block_id: block.id->0,
                height: block.height->0,
                time_stamp: 0,
                solidified: false,
                block_type: BlockType::MicroBlock,
            };
            if analyzer.save_solidified {
                seq![LedgerAction::UnsolidifyLast, append]
            } else {
                seq![append]
            }
        },
        BlockType::Block => {
            let append = LedgerAction::Append {
                block_id: block.id->0,
                height: block.height->0,
                time_stamp: block.timestamp->0,
                solidified: analyzer.save_solidified,
                block_type: BlockType::Block,
            };
            if analyzer.was_microblocks {
                seq![LedgerAction::Solidify(block.reference_block_id->0), append]
            } else {
                seq![append]
            }
        },
        BlockType::Rollback => seq![LedgerAction::Rollback(block.id->0)],
        BlockType::EMPTY => Seq::empty(),
    }
}

/// The state of the analyzer after an update.
pub open spec fn next_state(analyzer: Analyzer, block: BlockchainUpdateInfo) -> Analyzer {
    match block.block_type {
        BlockType::MicroBlock => Analyzer { was_microblocks: true, save_solidified: false },
        BlockType::Block => Analyzer { was_microblocks: false, ..analyzer },
        _ => analyzer,
    }
}

/// What one step does to the ledger, and the key that it gives: the key of
/// the record appended, the greatest key left after a rollback, `0` else.
pub open spec fn applied(pre: Db, action: LedgerAction, post: Db, uid: i64) -> bool {
    match action {
        LedgerAction::UnsolidifyLast => {
            &&& uid == 0
            &&& post.blocks@ == unsolidified_tail(pre.blocks@)
            &&& post == (Db { blocks: post.blocks, ..pre })
        },
        LedgerAction::Solidify(ref_block_id) => {
            &&& uid == 0
            &&& post.blocks@ == solidified(pre.blocks@, ref_block_id)
            &&& post == (Db { blocks: post.blocks, ..pre })
        },
        LedgerAction::Append { block_id, height, time_stamp, solidified, block_type } => {
            &&& uid == pre.last_block_uid + 1
            &&& post.blocks@ == appended(
                pre.blocks@,
                uid,
                block_id,
                height,
                time_stamp,
                solidified,
                block_type,
            )
            &&& post == (Db { blocks: post.blocks, last_block_uid: uid, ..pre })
        },
        LedgerAction::Rollback(block_id) => {
            &&& post.blocks@ == rolled_back(pre.blocks@, block_id)
            &&& post.blocks@.len() > 0
            &&& uid == post.blocks@.last().uid
            &&& post.balances@ == surviving_balances(pre.balances@, post.blocks@)
            &&& post.max_uids@ == surviving_index(pre.max_uids@, post.balances@)
            &&& post.rollbacks@.len() == pre.rollbacks@.len() + 1
            &&& post.rollbacks@.drop_last() == pre.rollbacks@
            &&& post.rollbacks@.last().uid == pre.last_rollback_uid + 1
            &&& is_audit_of(
                post.rollbacks@.last(),
                rolled_away(pre.blocks@, block_id),
                block_id,
                uid,
            )
            &&& post == (Db {
                blocks: post.blocks,
                balances: post.balances,
                max_uids: post.max_uids,
                rollbacks: post.rollbacks,
                last_rollback_uid: (pre.last_rollback_uid + 1) as i64,
                ..pre
            })
        },
    }
}

/// Whether a step can be taken on a store.
pub open spec fn applicable(db: Db, action: LedgerAction) -> bool {
    match action {
        LedgerAction::UnsolidifyLast => db.blocks@.len() > 0,
        LedgerAction::Solidify(_) => true,
        LedgerAction::Append { .. } => db.last_block_uid < i64::MAX,
        LedgerAction::Rollback(_) => db.blocks@.len() > 0 && db.last_rollback_uid < i64::MAX,
    }
}

/// Takes one step on the ledger.
pub fn apply(db: &mut Db, action: &LedgerAction) -> (uid: i64)
    requires
        old(db).wf(),
        applicable(*old(db), *action),
    ensures
        final(db).wf(),
        applied(*old(db), *action, *final(db), uid),
{
    match action {
        LedgerAction::UnsolidifyLast => {
            unsolidify_last_block(db);
            0
        },
        LedgerAction::Solidify(ref_block_id) => {
            solidify(db, ref_block_id);
            0
        },
        LedgerAction::Append { block_id, height, time_stamp, solidified, block_type } => save(
            db,
            block_id,
            height,
            time_stamp,
            *solidified,
            block_type,
        ),
        LedgerAction::Rollback(block_id) => rollback(db, block_id),
    }
}

/// The pending records stand at the end of the ledger: no solidified record
/// follows one that is not solidified.
pub open spec fn pending_at_end(rows: Seq<BlockRow>) -> bool {
    forall|i: int, j: int|
        0 <= i < j < rows.len() && !(#[trigger] rows[i]).is_solidified ==> !(#[trigger] rows[j]).is_solidified
}

pub open spec fn all_solidified(rows: Seq<BlockRow>) -> bool {
    forall|i: int| 0 <= i < rows.len() ==> (#[trigger] rows[i]).is_solidified
}

/// The analyzer and the ledger are in step: the pending records stand at
/// the end, and as long as no microblock was seen there are none.
pub open spec fn in_step(analyzer: Analyzer, db: Db) -> bool {
    &&& pending_at_end(db.blocks@)
    &&& analyzer.save_solidified ==> all_solidified(db.blocks@)
}

/// At any instant the records that are not solidified are one run at the
/// end of the ledger: an analyzer and a ledger that are in step stay in step
/// over every update. A new analyzer is in step with a ledger whose records
/// are all solidified, as they are after recovery.
pub proof fn lemma_pending_records_stay_at_the_end(
    pre: Analyzer,
    pre_db: Db,
    block: BlockchainUpdateInfo,
    post: Analyzer,
    post_db: Db,
    uid: i64,
)
    requires
        in_step(pre, pre_db),
        sent(pre, pre_db, block, post, post_db, uid),
    ensures
        in_step(post, post_db),
{
    let rows = pre_db.blocks@;
    let after = post_db.blocks@;
    match block.block_type {
        BlockType::MicroBlock => {
            let base = if pre.save_solidified {
                unsolidified_tail(rows)
            } else {
                rows
            };
            assert(pending_at_end(base)) by {
                if pre.save_solidified {
                    assert forall|i: int, j: int|
                        0 <= i < j < base.len() && !(#[trigger] base[i]).is_solidified implies !(
                    #[trigger] base[j]).is_solidified by {
                        assert(rows[i].is_solidified);
                    }
                }
            }
            assert forall|i: int, j: int|
                0 <= i < j < after.len() && !(#[trigger] after[i]).is_solidified implies !(
            #[trigger] after[j]).is_solidified by {
                if j < base.len() {
                    assert(after[i] == base[i] && after[j] == base[j]);
                }
            }
        },
        BlockType::Block => {
            let base = if pre.was_microblocks {
                solidified(rows, block.reference_block_id->0)
            } else {
                rows
            };
            if pre.was_microblocks {
                lemma_solidified_keeps_keys(rows, block.reference_block_id->0);
            }
            assert(pending_at_end(base)) by {
                if pre.was_microblocks && last_index_where(rows, BlockFilter::PendingBlock) >= 0 {
                    assert(all_solidified(base));
                }
            }
            assert forall|i: int, j: int|
                0 <= i < j < after.len() && !(#[trigger] after[i]).is_solidified implies !(
            #[trigger] after[j]).is_solidified by {
                if j < base.len() {
                    assert(after[i] == base[i] && after[j] == base[j]);
                } else {
                    assert(after[i] == base[i]);
                    if pre.save_solidified {
                        assert(!pre.was_microblocks ==> rows[i].is_solidified);
                        if pre.was_microblocks {
                            assert(rows[i].is_solidified);
                            assert(base[i].is_solidified);
                        }
                    }
                }
            }
            if post.save_solidified {
                assert forall|i: int| 0 <= i < after.len() implies (#[trigger] after[i]).is_solidified by {
                    if i < base.len() {
                        assert(after[i] == base[i]);
                        assert(rows[i].is_solidified);
                    }
                }
            }
        },
        BlockType::Rollback => {
            lemma_last_index_where(rows, BlockFilter::WithId(block.id->0));
            assert forall|i: int, j: int|
                0 <= i < j < after.len() && !(#[trigger] after[i]).is_solidified implies !(
            #[trigger] after[j]).is_solidified by {
                assert(after[i] == rows[i] && after[j] == rows[j]);
            }
            if post.save_solidified {
                assert forall|i: int| 0 <= i < after.len() implies (#[trigger] after[i]).is_solidified by {
                    assert(after[i] == rows[i]);
                }
            }
        },
        BlockType::EMPTY => {},
    }
}

impl Analyzer {
    pub fn new() -> (r: Self)
        ensures
            !r.was_microblocks,
            r.save_solidified,
    {
        Analyzer { was_microblocks: false, save_solidified: true }
    }

    /// Decides what an update asks of the ledger, and moves on to the state
    /// after the update.
    pub fn decide(&mut self, block: &BlockchainUpdateInfo) -> (actions: Vec<LedgerAction>)
        requires
            complete(*old(self), *block),
        ensures
            actions@ == plan(*old(self), *block),
            *final(self) == next_state(*old(self), *block),
    {
        let mut actions: Vec<LedgerAction> = Vec::new();
        match block.block_type {
            BlockType::MicroBlock => {
                self.was_microblocks = true;
                if self.save_solidified {
                    actions.push(LedgerAction::UnsolidifyLast);
                    self.save_solidified = false;
                }
                actions.push(
                    LedgerAction::Append {
                        block_id: block.id.as_ref().unwrap().clone(),
                        height: *block.height.as_ref().unwrap(),
                        time_stamp: 0,
                        solidified: false,
                        block_type: BlockType::MicroBlock,
                    },
                );
            },
            BlockType::Block => {
                let solidified = self.save_solidified;
                if self.was_microblocks {
                    actions.push(
                        LedgerAction::Solidify(block.reference_block_id.as_ref().unwrap().clone()),
                    );
                    self.was_microblocks = false;
                }
                actions.push(
                    LedgerAction::Append {
                        block_id: block.id.as_ref().unwrap().clone(),
                        height: *block.height.as_ref().unwrap(),
                        time_stamp: *block.timestamp.as_ref().unwrap(),
                        solidified,
                        block_type: BlockType::Block,
                    },
                );
            },
            BlockType::Rollback => {
                actions.push(LedgerAction::Rollback(block.id.as_ref().unwrap().clone()));
            },
            BlockType::EMPTY => {},
        }
        assert(actions@ =~= plan(*old(self), *block));
        actions
    }

    /// Applies one update to the ledger and returns the key under which the
    /// balance analyzer files the update's balances: the key of the record
    /// appended for a block or microblock, the greatest key left for a
    /// rollback.
    pub fn send(&mut self, db: &mut Db, block: &BlockchainUpdateInfo) -> (uid: i64)
        requires
            old(db).wf(),
            admits(*old(self), *old(db), *block),
        ensures
            final(db).wf(),
            sent(*old(self), *old(db), *block, *final(self), *final(db), uid),
    {
        let actions = self.decide(block);
        if actions.len() == 2 {
            apply(db, &actions[0]);
            apply(db, &actions[1])
        } else {
            apply(db, &actions[0])
        }
    }
}

} // verus!
