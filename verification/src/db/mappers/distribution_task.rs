//! The queue of distribution tasks.

use crate::db::mappers::unique_address::{dictionary, find_text, lemma_index_of_unique};
use crate::db::{dict_texts, dict_uids, task_uids, Db, DictRow, TaskRow, TaskState};
use crate::text::owned;
use vstd::prelude::*;

verus! {

/// A task as the worker takes it up, with the key of its asset.
#[derive(Clone, Debug)]
pub struct AssetDistributionTask {
    pub uid: i64,
    pub asset_id: String,
    pub asset_uid: i64,
    pub height: i32,
}

/// A task that waits and whose asset the dictionary knows.
pub open spec fn is_ready(t: TaskRow, assets: Seq<DictRow>) -> bool {
    t.state == TaskState::New && dict_texts(assets).contains(t.asset_id@)
}

/// Position of the last task, in key order, that is ready; `-1` when none is.
pub open spec fn next_task_index(tasks: Seq<TaskRow>, assets: Seq<DictRow>) -> int
    decreases tasks.len(),
{
    if tasks.len() == 0 {
        -1
    } else if is_ready(tasks.last(), assets) {
        tasks.len() - 1
    } else {
        next_task_index(tasks.drop_last(), assets)
    }
}

/// `next_task_index` names a ready task, after which none is ready.
pub proof fn lemma_next_task_index(tasks: Seq<TaskRow>, assets: Seq<DictRow>)
    ensures
        -1 <= next_task_index(tasks, assets) < tasks.len(),
        next_task_index(tasks, assets) >= 0 ==> is_ready(
            tasks[next_task_index(tasks, assets)],
            assets,
        ),
        forall|j: int|
            next_task_index(tasks, assets) < j < tasks.len() ==> !is_ready(
                #[trigger] tasks[j],
                assets,
            ),
    decreases tasks.len(),
{
    if tasks.len() > 0 && !is_ready(tasks.last(), assets) {
        lemma_next_task_index(tasks.drop_last(), assets);
        assert forall|j: int| next_task_index(tasks, assets) < j < tasks.len() implies !is_ready(
            #[trigger] tasks[j],
            assets,
        ) by {
            if j < tasks.len() - 1 {
                assert(tasks.drop_last()[j] == tasks[j]);
            }
        }
    }
}

/// The waiting task with the greatest key among those whose asset the
/// dictionary knows, with the key of that asset.
pub fn next_task(db: &Db) -> (r: Option<AssetDistributionTask>)
    requires
        db.wf(),
    ensures
        ({
            let i = next_task_index(db.tasks@, db.assets@);
            match r {
                Some(t) => {
                    &&& 0 <= i < db.tasks@.len()
                    &&& t.uid == db.tasks@[i].uid
                    &&& t.asset_id == db.tasks@[i].asset_id
                    &&& t.height == db.tasks@[i].height
                    &&& t.asset_uid == dictionary(db.assets@, db.last_asset_uid).uid_of(
                        db.tasks@[i].asset_id@,
                    )
                },
                None => i == -1,
            }
        }),
{
    let mut i: usize = db.tasks.len();
    assert(db.tasks@.subrange(0, i as int) =~= db.tasks@);
    while i > 0
        invariant
            i <= db.tasks@.len(),
            db.wf(),
            next_task_index(db.tasks@, db.assets@) == next_task_index(
                db.tasks@.subrange(0, i as int),
                db.assets@,
            ),
        decreases i,
    {
        let t = &db.tasks[i - 1];
        if t.state == TaskState::New {
            match find_text(&db.assets, &t.asset_id) {
                Some(k) => {
                    proof {
                        assert(dict_texts(db.assets@)[k as int] == t.asset_id@);
                        lemma_index_of_unique(dict_texts(db.assets@), k as int);
                        assert(dict_uids(db.assets@)[k as int] == db.assets@[k as int].uid);
                    }
                    return Some(
                        AssetDistributionTask {
                            uid: t.uid,
                            asset_id: t.asset_id.clone(),
                            asset_uid: db.assets[k].uid,
                            height: t.height,
                        },
                    );
                },
                None => {},
            }
        }
        assert(db.tasks@.subrange(0, i as int).drop_last() =~= db.tasks@.subrange(0, i - 1));
        i = i - 1;
    }
    None
}

/// The tasks after every one that fulfils `from` was brought to `state`,
/// with this error message where `message` gives one.
pub open spec fn moved(
    pre: Seq<TaskRow>,
    post: Seq<TaskRow>,
    from: spec_fn(TaskRow) -> bool,
    state: TaskState,
    message: Option<Seq<char>>,
) -> bool {
    &&& post.len() == pre.len()
    &&& forall|i: int|
        0 <= i < pre.len() ==> if from(pre[i]) {
            &&& (#[trigger] post[i]).uid == pre[i].uid
            &&& post[i].asset_id == pre[i].asset_id
            &&& post[i].height == pre[i].height
            &&& post[i].state == state
            &&& match message {
                Some(m) => post[i].error_message is Some && post[i].error_message->0@ == m,
                None => post[i].error_message == pre[i].error_message,
            }
        } else {
            post[i] == pre[i]
        }
}

/// Brings the task at one position to a state.
pub fn set_state_at(db: &mut Db, i: usize, state: TaskState, message: Option<&str>)
    requires
        old(db).wf(),
        i < old(db).tasks@.len(),
    ensures
        final(db).wf(),
        moved(
            old(db).tasks@,
            final(db).tasks@,
            |t: TaskRow| t.uid == old(db).tasks@[i as int].uid,
            state,
            match message {
                Some(m) => Some(m@),
                None => None,
            },
        ),
        *final(db) == (Db { tasks: final(db).tasks, ..*old(db) }),
{
    let mut row = db.tasks.remove(i);
    row.state = state;
    match message {
        Some(m) => {
            row.error_message = Some(owned(m));
        },
        None => {},
    }
    db.tasks.insert(i, row);
    proof {
        assert(task_uids(db.tasks@) =~= task_uids(old(db).tasks@));
        assert forall|a: int, b: int| 0 <= a < b < db.tasks@.len() implies !(db.tasks@[a].asset_id@
            == db.tasks@[b].asset_id@ && db.tasks@[a].height == db.tasks@[b].height) by {
            assert(db.tasks@[a].asset_id == old(db).tasks@[a].asset_id);
            assert(db.tasks@[b].asset_id == old(db).tasks@[b].asset_id);
        }
        assert forall|k: int| 0 <= k < db.tasks@.len() && k != i implies db.tasks@[k] == old(
            db,
        ).tasks@[k] by {}
        assert forall|k: int| 0 <= k < db.tasks@.len() && k != i implies old(db).tasks@[k].uid
            != old(db).tasks@[i as int].uid by {
            assert(task_uids(old(db).tasks@)[k] != task_uids(old(db).tasks@)[i as int]);
        }
    }
}

/// Position of the task with this key.
pub fn find_task(db: &Db, uid: i64) -> (r: Option<usize>)
    ensures
        match r {
            Some(i) => i < db.tasks@.len() && db.tasks@[i as int].uid == uid,
            None => forall|k: int| 0 <= k < db.tasks@.len() ==> (#[trigger] db.tasks@[k]).uid != uid,
        },
{
    let mut i: usize = 0;
    while i < db.tasks.len()
        invariant
            i <= db.tasks@.len(),
            forall|k: int| 0 <= k < i ==> (#[trigger] db.tasks@[k]).uid != uid,
        decreases db.tasks@.len() - i,
    {
        if db.tasks[i].uid == uid {
            return Some(i);
        }
        i = i + 1;
    }
    None
}

/// Marks every task that was in progress as failed: the consumer that
/// worked on it is gone.
pub fn find_failed_tasks(db: &mut Db)
    requires
        old(db).wf(),
    ensures
        final(db).wf(),
        moved(
            old(db).tasks@,
            final(db).tasks@,
            |t: TaskRow| t.state == TaskState::Progress,
            TaskState::Error,
            Some("consumer restarted"@),
        ),
        *final(db) == (Db { tasks: final(db).tasks, ..*old(db) }),
{
    let n = db.tasks.len();
    let mut i: usize = 0;
    while i < n
        invariant
            i <= n,
            n == db.tasks@.len(),
            n == old(db).tasks@.len(),
            db.wf(),
            forall|k: int| i <= k < n ==> db.tasks@[k] == old(db).tasks@[k],
            forall|k: int|
                0 <= k < i ==> if old(db).tasks@[k].state == TaskState::Progress {
                    &&& (#[trigger] db.tasks@[k]).uid == old(db).tasks@[k].uid
                    &&& db.tasks@[k].asset_id == old(db).tasks@[k].asset_id
                    &&& db.tasks@[k].height == old(db).tasks@[k].height
                    &&& db.tasks@[k].state == TaskState::Error
                    &&& db.tasks@[k].error_message is Some
                    &&& db.tasks@[k].error_message->0@ == "consumer restarted"@
                } else {
                    db.tasks@[k] == old(db).tasks@[k]
                },
            *db == (Db { tasks: db.tasks, ..*old(db) }),
        decreases n - i,
    {
        if db.tasks[i].state == TaskState::Progress {
            let ghost before = db.tasks@;
            set_state_at(db, i, TaskState::Error, Some("consumer restarted"));
            proof {
                assert forall|k: int| 0 <= k < n && k != i implies db.tasks@[k] == before[k] by {
                    assert(task_uids(before)[k] != task_uids(before)[i as int]);
                }
            }
        }
        i = i + 1;
    }
}

/// Whether a task for this asset and height is in the queue.
pub open spec fn has_task(tasks: Seq<TaskRow>, asset_id: Seq<char>, height: i32) -> bool {
    exists|i: int|
        0 <= i < tasks.len() && (#[trigger] tasks[i]).asset_id@ == asset_id && tasks[i].height
            == height
}

/// Position of the task for an asset and a height.
pub fn find_by_asset_height(db: &Db, asset_id: &String, height: i32) -> (r: Option<usize>)
    ensures
        match r {
            Some(i) => i < db.tasks@.len() && db.tasks@[i as int].asset_id@ == asset_id@
                && db.tasks@[i as int].height == height,
            None => !has_task(db.tasks@, asset_id@, height),
        },
{
    let mut i: usize = 0;
    while i < db.tasks.len()
        invariant
            i <= db.tasks@.len(),
            forall|k: int|
                0 <= k < i ==> !((#[trigger] db.tasks@[k]).asset_id@ == asset_id@
                    && db.tasks@[k].height == height),
        decreases db.tasks@.len() - i,
    {
        if db.tasks[i].height == height && db.tasks[i].asset_id == *asset_id {
            return Some(i);
        }
        i = i + 1;
    }
    None
}

/// Queues a task for an asset and a height, unless there is one already.
/// Returns the new task, or nothing when the queue stays as it is.
pub fn create(db: &mut Db, asset_id: &String, height: &i32) -> (r: Option<AssetDistributionTask>)
    requires
        old(db).wf(),
        old(db).last_task_uid < i64::MAX,
    ensures
        final(db).wf(),
        match r {
            Some(t) => {
                &&& !has_task(old(db).tasks@, asset_id@, *height)
                &&& t.uid == old(db).last_task_uid + 1
                &&& t.asset_id == *asset_id
                &&& t.asset_uid == 0
                &&& t.height == *height
                &&& final(db).tasks@ == old(db).tasks@.push(
                    TaskRow {
                        uid: t.uid,
                        asset_id: *asset_id,
                        height: *height,
                        state: TaskState::New,
                        error_message: None,
                    },
                )
                &&& *final(db) == (Db { tasks: final(db).tasks, last_task_uid: t.uid, ..*old(db) })
            },
            None => has_task(old(db).tasks@, asset_id@, *height) && *final(db) == *old(db),
        },
{
    match find_by_asset_height(db, asset_id, *height) {
        Some(_) => None,
        None => {
            let uid = db.last_task_uid + 1;
            db.tasks.push(
                TaskRow {
                    uid,
                    asset_id: asset_id.clone(),
                    height: *height,
                    state: TaskState::New,
                    error_message: None,
                },
            );
            db.last_task_uid = uid;
            proof {
                assert(task_uids(db.tasks@) =~= task_uids(old(db).tasks@).push(uid));
            }
            Some(
                AssetDistributionTask {
                    uid,
                    asset_id: asset_id.clone(),
                    asset_uid: 0,
                    height: *height,
                },
            )
        },
    }
}

} // verus!
