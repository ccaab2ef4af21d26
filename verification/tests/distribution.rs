use balances::api::error::AppError;
use balances::api::repo::{
    asset_distribution, asset_distribution_task_by_asset_id_height,
    create_asset_distribution_task, AssetDistribution,
};
use balances::api::server::bh_handler_asset_distribution;
use balances::consumer::idle_seconds;
use balances::db::mappers::asset_distribution::{
    distribution_rows, process_task, refresh, set_task_done, set_task_error, set_task_progress,
};
use balances::db::mappers::blocks_microblocks::save;
use balances::db::mappers::distribution_task::{
    create, find_failed_tasks, next_task, AssetDistributionTask,
};
use balances::db::{Db, TaskState};
use balances::waves::bu::balance_updates::{save_chunk, BalanceHistory};
use balances::waves::BlockType;
use vstd::hash_map::StringHashMap;

fn text(s: &str) -> String {
    s.to_string()
}

fn entry(block_uid: i64, address: &str, asset: &str, amount: i64, height: u32) -> BalanceHistory {
    BalanceHistory {
        block_uid,
        address: text(address),
        asset_id: text(asset),
        amount,
        block_height: height,
    }
}

fn store() -> Db {
    let mut db = Db::new();
    let b1 = save(&mut db, &text("b1"), &10, &10, true, &BlockType::Block);
    let b2 = save(&mut db, &text("b2"), &20, &20, true, &BlockType::Block);
    let b3 = save(&mut db, &text("b3"), &30, &30, true, &BlockType::Block);
    save_chunk(
        &mut db,
        &vec![
            entry(b1, "a", "X", 5, 10),
            entry(b1, "b", "X", 7, 10),
            entry(b1, "c", "X", 7, 10),
            entry(b1, "d", "X", 1, 10),
            entry(b1, "e", "Y", 100, 10),
            entry(b2, "a", "X", 50, 20),
            entry(b2, "d", "X", 0, 20),
            entry(b2, "f", "X", -3, 20),
            entry(b3, "a", "X", 2, 30),
            entry(b3, "g", "X", 9, 30),
        ],
    );
    db
}

fn names(db: &Db, ids: Vec<i64>) -> Vec<String> {
    ids.iter().map(|id| db.addresses.iter().find(|r| r.uid == *id).unwrap().text.clone()).collect()
}

#[test]
fn a_distribution_ranks_the_holders_by_amount() {
    let db = store();
    let x = db.assets.iter().find(|r| r.text == "X").unwrap().uid;

    let rows = distribution_rows(&db, x, 20);
    let ranks: Vec<i64> = rows.iter().map(|r| r.uid).collect();
    assert_eq!(ranks, vec![1, 2, 3]);
    assert_eq!(names(&db, rows.iter().map(|r| r.address_id).collect()), vec!["a", "b", "c"]);
    let amounts: Vec<i64> = rows.iter().map(|r| r.amount).collect();
    assert_eq!(amounts, vec![50, 7, 7]);
    let heights: Vec<i32> = rows.iter().map(|r| r.height).collect();
    assert_eq!(heights, vec![20, 10, 10]);
    // the latest balance row and the greatest index row of the address
    assert_eq!((rows[0].max_bh_uid, rows[0].max_uid), (6, 6));
    assert_eq!((rows[1].max_bh_uid, rows[1].max_uid), (2, 2));

    let rows = distribution_rows(&db, x, 10);
    assert_eq!(names(&db, rows.iter().map(|r| r.address_id).collect()), vec!["b", "c", "a", "d"]);
    let amounts: Vec<i64> = rows.iter().map(|r| r.amount).collect();
    assert_eq!(amounts, vec![7, 7, 5, 1]);

    let rows = distribution_rows(&db, x, 30);
    assert_eq!(names(&db, rows.iter().map(|r| r.address_id).collect()), vec!["g", "b", "c", "a"]);

    assert_eq!(distribution_rows(&db, x, 9).len(), 0);
    assert_eq!(distribution_rows(&db, 99, 30).len(), 0);
}

#[test]
fn tasks_are_queued_once_per_asset_and_height() {
    let mut db = Db::new();
    let t = create(&mut db, &text("X"), &10).unwrap();
    assert_eq!((t.uid, t.asset_id.as_str(), t.asset_uid, t.height), (1, "X", 0, 10));
    assert!(create(&mut db, &text("X"), &10).is_none());
    assert_eq!(create(&mut db, &text("X"), &11).unwrap().uid, 2);
    assert_eq!(create(&mut db, &text("Y"), &10).unwrap().uid, 3);
    assert_eq!(db.tasks.len(), 3);
    assert!(db.tasks.iter().all(|t| t.state == TaskState::New && t.error_message.is_none()));
}

#[test]
fn creating_a_task_again_changes_nothing_and_is_accepted() {
    let mut db = Db::new();
    assert_eq!(create_asset_distribution_task(&mut db, &text("X"), &10), 201);
    set_task_progress(&mut db, &1);
    assert_eq!(create_asset_distribution_task(&mut db, &text("X"), &10), 202);
    assert_eq!(db.tasks.len(), 1);
    assert_eq!(db.tasks[0].state, TaskState::Progress);
    assert_eq!(db.last_task_uid, 1);
}

#[test]
fn the_next_task_is_the_latest_that_waits_for_a_known_asset() {
    let mut db = store();
    assert!(next_task(&db).is_none());
    create(&mut db, &text("X"), &10);
    create(&mut db, &text("Y"), &10);
    create(&mut db, &text("unknown"), &10);
    create(&mut db, &text(""), &10);
    let t = next_task(&db).unwrap();
    let y = db.assets.iter().find(|r| r.text == "Y").unwrap().uid;
    assert_eq!((t.uid, t.asset_id.as_str(), t.asset_uid, t.height), (2, "Y", y, 10));
    set_task_done(&mut db, &2);
    assert_eq!(next_task(&db).unwrap().uid, 1);
    set_task_error(&mut db, &1, "gone");
    assert!(next_task(&db).is_none());
    assert_eq!(db.tasks[0].state, TaskState::Error);
    assert_eq!(db.tasks[0].error_message.as_deref(), Some("gone"));
    assert_eq!(db.tasks[1].state, TaskState::Done);
    assert_eq!(db.tasks[1].error_message, None);
    // a key that no task has changes nothing
    set_task_progress(&mut db, &77);
    assert_eq!(db.tasks[2].state, TaskState::New);
}

#[test]
fn tasks_in_progress_fail_at_a_restart() {
    let mut db = Db::new();
    create(&mut db, &text("X"), &1);
    create(&mut db, &text("X"), &2);
    create(&mut db, &text("X"), &3);
    set_task_progress(&mut db, &1);
    set_task_done(&mut db, &2);
    find_failed_tasks(&mut db);
    assert_eq!(db.tasks[0].state, TaskState::Error);
    assert_eq!(db.tasks[0].error_message.as_deref(), Some("consumer restarted"));
    assert_eq!(db.tasks[1].state, TaskState::Done);
    assert_eq!(db.tasks[2].state, TaskState::New);
    assert_eq!(db.tasks[2].error_message, None);
}

#[test]
fn a_task_above_the_ledger_fails() {
    let mut db = store();
    create(&mut db, &text("X"), &31);
    assert_eq!(refresh(&mut db).unwrap(), 1);
    assert_eq!(db.tasks[0].state, TaskState::Error);
    assert_eq!(db.tasks[0].error_message.as_deref(), Some("invalid height"));
    assert_eq!(db.snapshots.len(), 0);
    assert_eq!(refresh(&mut db).unwrap(), 0);
}

#[test]
fn the_worker_takes_one_task_a_round() {
    let mut db = store();
    assert_eq!(refresh(&mut db).unwrap(), 0);
    create(&mut db, &text("X"), &20);
    create(&mut db, &text("X"), &30);
    assert_eq!(refresh(&mut db).unwrap(), 1);
    assert_eq!(db.tasks[0].state, TaskState::New);
    assert_eq!(db.tasks[1].state, TaskState::Done);
    assert_eq!(db.snapshots.len(), 1);
    assert_eq!((db.snapshots[0].task_uid, db.snapshots[0].height), (2, 30));
    assert_eq!(refresh(&mut db).unwrap(), 1);
    assert_eq!(db.snapshots.len(), 2);
    assert_eq!(db.snapshots[1].rows.len(), 3);
    assert_eq!(refresh(&mut db).unwrap(), 0);
    assert_eq!(idle_seconds(0), 300);
    assert_eq!(idle_seconds(1), 0);
}

#[test]
fn a_task_is_frozen_once() {
    let mut db = store();
    let x = db.assets.iter().find(|r| r.text == "X").unwrap().uid;
    let task = AssetDistributionTask { uid: 1, asset_id: text("X"), asset_uid: x, height: 20 };
    create(&mut db, &text("X"), &20);
    assert_eq!(process_task(&mut db, &task, &30).unwrap(), 1);
    assert_eq!(db.snapshots.len(), 1);
    assert!(matches!(process_task(&mut db, &task, &30), Err(AppError::DbError(_))));
    assert_eq!(db.snapshots.len(), 1);
    assert_eq!(db.snapshots[0].rows.len(), 3);
}

#[test]
fn a_request_sees_the_state_of_its_task() {
    let mut db = store();
    assert!(matches!(asset_distribution(&db, &text("X"), &20, None), Ok(AssetDistribution::NoData)));
    assert!(asset_distribution_task_by_asset_id_height(&db, &text("X"), &20).is_none());
    let (list, status) = bh_handler_asset_distribution(text("X"), 20, &db, &StringHashMap::new()).ok().unwrap();
    assert_eq!((list.items.len(), status), (0, 204));
    assert_eq!(list.page_info.last_cursor, None);

    create(&mut db, &text("X"), &20);
    let t = asset_distribution_task_by_asset_id_height(&db, &text("X"), &20).unwrap();
    assert_eq!((t.uid, t.asset_id.as_str(), t.height, t.task_state.as_str(), t.error_message.as_str()), (1, "X", 20, "new", ""));
    assert!(matches!(asset_distribution(&db, &text("X"), &20, None), Ok(AssetDistribution::InProgress)));
    let (list, status) = bh_handler_asset_distribution(text("X"), 20, &db, &StringHashMap::new()).ok().unwrap();
    assert_eq!((list.items.len(), status), (0, 202));

    set_task_progress(&mut db, &1);
    assert_eq!(asset_distribution_task_by_asset_id_height(&db, &text("X"), &20).unwrap().task_state, "progress");
    assert!(matches!(asset_distribution(&db, &text("X"), &20, None), Ok(AssetDistribution::InProgress)));
    set_task_error(&mut db, &1, "why");
    let t = asset_distribution_task_by_asset_id_height(&db, &text("X"), &20).unwrap();
    assert_eq!((t.task_state.as_str(), t.error_message.as_str()), ("error", "why"));
    assert!(matches!(asset_distribution(&db, &text("X"), &20, None), Ok(AssetDistribution::InProgress)));

    // done without a snapshot: the table is missing
    set_task_done(&mut db, &1);
    assert_eq!(asset_distribution_task_by_asset_id_height(&db, &text("X"), &20).unwrap().task_state, "done");
    assert!(matches!(asset_distribution(&db, &text("X"), &20, None), Err(AppError::DbError(_))));
}

fn wide_store(holders: usize) -> Db {
    let mut db = Db::new();
    let b1 = save(&mut db, &text("b1"), &10, &10, true, &BlockType::Block);
    let chunk: Vec<BalanceHistory> =
        (0..holders).map(|i| entry(b1, &format!("h{}", i), "X", 1000 - i as i64, 10)).collect();
    save_chunk(&mut db, &chunk);
    create(&mut db, &text("X"), &10);
    assert_eq!(refresh(&mut db).unwrap(), 1);
    db
}

fn page(db: &Db, after: Option<i64>) -> (Vec<i64>, bool, i64) {
    match asset_distribution(db, &text("X"), &10, after) {
        Ok(AssetDistribution::Exist((items, has_next, last))) => {
            (items.iter().map(|i| i.uid).collect(), has_next, last)
        }
        _ => panic!("the distribution is there"),
    }
}

#[test]
fn pages_have_a_hundred_holders() {
    let db = wide_store(250);
    let (ranks, has_next, last) = page(&db, None);
    assert_eq!(ranks, (1..=100).collect::<Vec<i64>>());
    assert!(has_next);
    assert_eq!(last, 100);
    let (ranks, has_next, last) = page(&db, Some(100));
    assert_eq!(ranks, (101..=200).collect::<Vec<i64>>());
    assert!(has_next);
    assert_eq!(last, 200);
    let (ranks, has_next, last) = page(&db, Some(200));
    assert_eq!(ranks, (201..=250).collect::<Vec<i64>>());
    assert!(!has_next);
    assert_eq!(last, 250);
    let (ranks, has_next, last) = page(&db, Some(250));
    assert_eq!(ranks, Vec::<i64>::new());
    assert!(!has_next);
    assert_eq!(last, 0);
    let (ranks, _, _) = page(&db, Some(-5));
    assert_eq!(ranks.len(), 100);
    assert_eq!(ranks[0], 1);
    let (ranks, has_next, last) = page(&db, Some(150));
    assert_eq!((ranks.len(), has_next, last), (100, false, 250));
    let (ranks, has_next, last) = page(&db, Some(149));
    assert_eq!((ranks.len(), has_next, last), (100, true, 249));
}

#[test]
fn the_cursor_of_a_page_is_the_rank_to_go_on_from() {
    let db = wide_store(101);
    let mut params = StringHashMap::new();
    params.insert(text("after"), text("not a number"));
    let (list, status) = bh_handler_asset_distribution(text("X"), 10, &db, &params).ok().unwrap();
    assert_eq!(status, 200);
    assert_eq!(list.items.len(), 100);
    assert_eq!(list.items[0].address, "h0");
    assert_eq!(list.items[0].amount, 1000);
    assert_eq!(list.items[99].address, "h99");
    assert!(list.page_info.has_next_page);
    assert_eq!(list.page_info.last_cursor.as_deref(), Some("100"));

    let mut params = StringHashMap::new();
    params.insert(text("after"), text("100"));
    let (list, _) = bh_handler_asset_distribution(text("X"), 10, &db, &params).ok().unwrap();
    assert_eq!(list.items.len(), 1);
    assert_eq!(list.items[0].uid, 101);
    assert!(!list.page_info.has_next_page);
    assert_eq!(list.page_info.last_cursor.as_deref(), Some("101"));

    let mut params = StringHashMap::new();
    params.insert(text("after"), text("101"));
    let (list, _) = bh_handler_asset_distribution(text("X"), 10, &db, &params).ok().unwrap();
    assert_eq!(list.items.len(), 0);
    assert_eq!(list.page_info.last_cursor.as_deref(), Some("0"));
}
