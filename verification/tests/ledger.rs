use balances::consumer::{init_db_data, start_height};
use balances::db::mappers::blocks_microblocks::{
    get_last_height, last_matching, rollback, save, save_rollback_info, solidify,
    to_shown_height, to_stored_height, to_whole_seconds, unsolidify_last_block, BlockFilter,
};
use balances::db::mappers::safe_heights;
use balances::db::Db;
use balances::waves::bu::balance_updates::{save_chunk, BalanceHistory};
use balances::waves::bu::blocks::Analyzer;
use balances::waves::{BlockType, BlockchainUpdateInfo};

fn text(s: &str) -> String {
    s.to_string()
}

fn update(kind: BlockType, id: &str, height: u32, timestamp: Option<i64>, reference: Option<&str>) -> BlockchainUpdateInfo {
    let mut u = BlockchainUpdateInfo::default();
    u.block_type = kind;
    u.id = Some(text(id));
    u.height = Some(height);
    u.timestamp = timestamp;
    u.reference_block_id = reference.map(text);
    u
}

fn entry_at(block_uid: i64, address: &str, amount: i64, height: u32) -> BalanceHistory {
    BalanceHistory {
        block_uid,
        address: text(address),
        asset_id: text("WAVES"),
        amount,
        block_height: height,
    }
}

#[test]
fn keys_are_given_in_order_and_never_again() {
    let mut db = Db::new();
    assert_eq!(save(&mut db, &text("a"), &1, &10, true, &BlockType::Block), 1);
    assert_eq!(save(&mut db, &text("b"), &2, &20, true, &BlockType::Block), 2);
    assert_eq!(rollback(&mut db, &text("a")), 1);
    assert_eq!(db.blocks.len(), 1);
    assert_eq!(save(&mut db, &text("c"), &2, &30, true, &BlockType::Block), 3);
    assert_eq!(db.last_block_uid, 3);
    assert_eq!(db.blocks[1].uid, 3);
    assert_eq!(db.blocks[1].microblock_id, None);
}

#[test]
fn heights_are_stored_as_signed_numbers() {
    assert_eq!(to_stored_height(0), 0);
    assert_eq!(to_stored_height(2147483647), 2147483647);
    assert_eq!(to_stored_height(2147483648), -2147483648);
    assert_eq!(to_stored_height(u32::MAX), -1);
    assert_eq!(to_shown_height(-1), u32::MAX);
    assert_eq!(to_shown_height(i32::MIN), 2147483648);
    assert_eq!(to_shown_height(17), 17);
}

#[test]
fn whole_seconds_round_towards_zero() {
    assert_eq!(to_whole_seconds(0), 0);
    assert_eq!(to_whole_seconds(999), 0);
    assert_eq!(to_whole_seconds(1000), 1);
    assert_eq!(to_whole_seconds(1999), 1);
    assert_eq!(to_whole_seconds(-1), 0);
    assert_eq!(to_whole_seconds(-999), 0);
    assert_eq!(to_whole_seconds(-1000), -1);
    assert_eq!(to_whole_seconds(-1001), -1);
    assert_eq!(to_whole_seconds(i64::MAX), i64::MAX / 1000);
    assert_eq!(to_whole_seconds(i64::MIN), i64::MIN / 1000);
}

#[test]
fn the_last_record_can_be_marked_as_not_solidified() {
    let mut db = Db::new();
    save(&mut db, &text("a"), &1, &10, true, &BlockType::Block);
    save(&mut db, &text("b"), &2, &20, true, &BlockType::Block);
    unsolidify_last_block(&mut db);
    assert!(db.blocks[0].is_solidified);
    assert!(!db.blocks[1].is_solidified);
    assert_eq!(db.blocks[1].id, "b");
    assert_eq!(db.blocks[1].uid, 2);
}

#[test]
fn solidification_rewrites_the_pending_records_and_keeps_their_keys() {
    let mut db = Db::new();
    save(&mut db, &text("b0"), &9, &900, true, &BlockType::Block);
    save(&mut db, &text("b1"), &10, &1000, false, &BlockType::Block);
    save(&mut db, &text("m1"), &11, &0, false, &BlockType::MicroBlock);
    save(&mut db, &text("m2"), &11, &0, false, &BlockType::MicroBlock);
    let r = solidify(&mut db, &text("m2"));
    assert_eq!(r, Some((4, 10, 1000)));
    assert_eq!(db.blocks.len(), 4);
    let uids: Vec<i64> = db.blocks.iter().map(|b| b.uid).collect();
    assert_eq!(uids, vec![1, 2, 3, 4]);
    // a solidified record stays as it is
    assert_eq!(db.blocks[0].id, "b0");
    assert_eq!(db.blocks[0].microblock_id, None);
    // the pending block takes the new identifier and keeps its own
    assert_eq!(db.blocks[1].id, "m2");
    assert_eq!(db.blocks[1].microblock_id.as_deref(), Some("b1"));
    assert_eq!(db.blocks[1].height, 10);
    assert_eq!(db.blocks[1].time_stamp, 1000);
    // the microblocks inherit identifier, height and time stamp
    for (i, own) in [(2, "m1"), (3, "m2")] {
        assert_eq!(db.blocks[i].id, "m2");
        assert_eq!(db.blocks[i].microblock_id.as_deref(), Some(own));
        assert_eq!(db.blocks[i].height, 10);
        assert_eq!(db.blocks[i].time_stamp, 1000);
        assert_eq!(db.blocks[i].block_type, BlockType::MicroBlock);
    }
    assert!(db.blocks.iter().all(|b| b.is_solidified));
}

#[test]
fn solidification_without_pending_records_changes_nothing() {
    let mut db = Db::new();
    assert_eq!(solidify(&mut db, &text("x")), None);
    save(&mut db, &text("b0"), &9, &900, true, &BlockType::Block);
    assert_eq!(solidify(&mut db, &text("x")), None);
    assert_eq!(db.blocks[0].id, "b0");
    // microblocks without a pending block stay pending
    save(&mut db, &text("m"), &9, &0, false, &BlockType::MicroBlock);
    assert_eq!(solidify(&mut db, &text("x")), None);
    assert_eq!(db.blocks[1].id, "m");
    assert!(!db.blocks[1].is_solidified);
    assert_eq!(db.blocks[1].time_stamp, 0);
}

#[test]
fn solidification_of_a_pending_block_alone_reports_nothing() {
    let mut db = Db::new();
    save(&mut db, &text("b1"), &10, &1000, false, &BlockType::Block);
    assert_eq!(solidify(&mut db, &text("r")), None);
    assert_eq!(db.blocks[0].id, "r");
    assert_eq!(db.blocks[0].microblock_id.as_deref(), Some("b1"));
    assert!(db.blocks[0].is_solidified);
}

#[test]
fn microblocks_inherit_from_the_last_pending_block() {
    let mut db = Db::new();
    save(&mut db, &text("b1"), &10, &1000, false, &BlockType::Block);
    save(&mut db, &text("b2"), &11, &1100, false, &BlockType::Block);
    save(&mut db, &text("m"), &12, &0, false, &BlockType::MicroBlock);
    assert_eq!(solidify(&mut db, &text("r")), Some((3, 11, 1100)));
    assert_eq!(db.blocks[2].height, 11);
    assert_eq!(db.blocks[2].time_stamp, 1100);
    assert_eq!(db.blocks[0].height, 10);
    assert_eq!(db.blocks[0].id, "r");
    assert_eq!(db.blocks[1].id, "r");
}

#[test]
fn rollback_removes_what_follows_the_last_record_with_the_identifier() {
    let mut db = Db::new();
    let b1 = save(&mut db, &text("x"), &1, &10, true, &BlockType::Block);
    let b2 = save(&mut db, &text("x"), &1, &10, true, &BlockType::MicroBlock);
    let b3 = save(&mut db, &text("y"), &2, &20, true, &BlockType::Block);
    let b4 = save(&mut db, &text("z"), &3, &30, false, &BlockType::Block);
    save_chunk(
        &mut db,
        &vec![entry_at(b1, "A", 1, 1), entry_at(b2, "A", 2, 1), entry_at(b3, "A", 3, 2), entry_at(b4, "B", 4, 3)],
    );
    assert_eq!(db.balances.len(), 4);
    assert_eq!(db.max_uids.len(), 3);
    let tip = rollback(&mut db, &text("x"));
    assert_eq!(tip, 2);
    assert_eq!(db.blocks.len(), 2);
    assert_eq!(db.balances.len(), 2);
    assert_eq!(db.balances[1].block_uid, 2);
    // the index rows of the removed balance rows are gone too
    assert_eq!(db.max_uids.len(), 1);
    assert_eq!(db.max_uids[0].balance_history_uid, 2);
    assert_eq!(db.rollbacks.len(), 1);
    assert_eq!(db.rollbacks[0].uid, 1);
    assert_eq!(db.rollbacks[0].max_uid_kept, 2);
    assert_eq!(db.rollbacks[0].max_height, 3);
    assert_eq!(db.rollbacks[0].max_time_stamp, 30);
    assert_eq!(db.rollbacks[0].deleted_blocks_data, "3,y,20,2,true\n4,z,30,3,false");
}

#[test]
fn rollback_to_an_unknown_identifier_removes_nothing() {
    let mut db = Db::new();
    save(&mut db, &text("x"), &1, &10, true, &BlockType::Block);
    save(&mut db, &text("y"), &2, &20, true, &BlockType::Block);
    assert_eq!(rollback(&mut db, &text("nowhere")), 2);
    assert_eq!(db.blocks.len(), 2);
    assert_eq!(db.rollbacks[0].deleted_blocks_data, "");
    assert_eq!(db.rollbacks[0].max_height, 0);
    assert_eq!(db.rollbacks[0].max_time_stamp, 0);
    assert_eq!(db.rollbacks[0].max_uid_kept, 2);
    assert_eq!(db.rollbacks[0].id, "nowhere");
}

#[test]
fn audit_records_are_kept_as_given() {
    let mut db = Db::new();
    save_rollback_info(&mut db, &5, &text("id"), &7, &9, &text("lines"));
    assert_eq!(db.rollbacks.len(), 1);
    assert_eq!(db.rollbacks[0].uid, 1);
    assert_eq!(db.rollbacks[0].max_uid_kept, 5);
    assert_eq!(db.rollbacks[0].id, "id");
    assert_eq!(db.rollbacks[0].max_height, 7);
    assert_eq!(db.rollbacks[0].max_time_stamp, 9);
    assert_eq!(db.rollbacks[0].deleted_blocks_data, "lines");
}

#[test]
fn the_last_height_is_that_of_the_latest_solidified_block() {
    let mut db = Db::new();
    assert_eq!(get_last_height(&db), None);
    save(&mut db, &text("m"), &5, &0, false, &BlockType::MicroBlock);
    assert_eq!(get_last_height(&db), None);
    save(&mut db, &text("a"), &6, &10, true, &BlockType::Block);
    save(&mut db, &text("b"), &7, &20, false, &BlockType::Block);
    save(&mut db, &text("c"), &8, &30, true, &BlockType::MicroBlock);
    assert_eq!(get_last_height(&db), Some(6));
}

#[test]
fn records_are_found_from_the_end() {
    let mut db = Db::new();
    save(&mut db, &text("a"), &6, &1500, true, &BlockType::Block);
    save(&mut db, &text("b"), &7, &2500, false, &BlockType::Block);
    save(&mut db, &text("a"), &8, &0, false, &BlockType::MicroBlock);
    assert_eq!(last_matching(&db.blocks, &BlockFilter::Any), Some(2));
    assert_eq!(last_matching(&db.blocks, &BlockFilter::DurableBlock), Some(0));
    assert_eq!(last_matching(&db.blocks, &BlockFilter::Solidified), Some(0));
    assert_eq!(last_matching(&db.blocks, &BlockFilter::WithId(text("a"))), Some(2));
    assert_eq!(last_matching(&db.blocks, &BlockFilter::WithId(text("b"))), Some(1));
    assert_eq!(last_matching(&db.blocks, &BlockFilter::WithId(text("c"))), None);
    assert_eq!(last_matching(&db.blocks, &BlockFilter::PendingBlock), Some(1));
    assert_eq!(last_matching(&db.blocks, &BlockFilter::PendingMicroBlock), Some(2));
    assert_eq!(last_matching(&db.blocks, &BlockFilter::HeightAtMost(7)), Some(1));
    assert_eq!(last_matching(&db.blocks, &BlockFilter::HeightAtMost(5)), None);
    assert_eq!(last_matching(&db.blocks, &BlockFilter::SecondsAtMost(1)), Some(2));
    assert_eq!(last_matching(&db.blocks, &BlockFilter::SecondsAtMost(-1)), None);
}

#[test]
fn the_analyzer_follows_the_stream() {
    let mut db = Db::new();
    let mut analyzer = Analyzer::new();
    assert!(!analyzer.was_microblocks);
    assert!(analyzer.save_solidified);

    assert_eq!(analyzer.send(&mut db, &update(BlockType::Block, "b1", 1, Some(100), Some("b0"))), 1);
    assert_eq!(analyzer.send(&mut db, &update(BlockType::Block, "b2", 2, Some(200), Some("b1"))), 2);
    assert!(db.blocks.iter().all(|b| b.is_solidified));
    assert!(!analyzer.was_microblocks && analyzer.save_solidified);

    assert_eq!(analyzer.send(&mut db, &update(BlockType::MicroBlock, "m1", 2, None, None)), 3);
    assert!(analyzer.was_microblocks && !analyzer.save_solidified);
    assert!(db.blocks[0].is_solidified);
    assert!(!db.blocks[1].is_solidified);
    assert!(!db.blocks[2].is_solidified);
    assert_eq!(db.blocks[2].time_stamp, 0);

    assert_eq!(analyzer.send(&mut db, &update(BlockType::MicroBlock, "m2", 2, None, None)), 4);
    assert!(!db.blocks[1].is_solidified);
    assert!(analyzer.was_microblocks && !analyzer.save_solidified);

    assert_eq!(analyzer.send(&mut db, &update(BlockType::Block, "b3", 3, Some(300), Some("m2"))), 5);
    assert!(!analyzer.was_microblocks && !analyzer.save_solidified);
    assert_eq!(db.blocks[1].id, "m2");
    assert_eq!(db.blocks[1].microblock_id.as_deref(), Some("b2"));
    assert_eq!(db.blocks[3].id, "m2");
    assert_eq!(db.blocks[3].microblock_id.as_deref(), Some("m2"));
    assert_eq!(db.blocks[3].uid, 4);
    assert_eq!(db.blocks[3].height, 2);
    assert_eq!(db.blocks[3].time_stamp, 200);
    assert_eq!(db.blocks[4].id, "b3");
    // once microblocks were seen, a block is pending until the next block
    assert!(!db.blocks[4].is_solidified);
    assert_eq!(analyzer.send(&mut db, &update(BlockType::MicroBlock, "m3", 3, None, None)), 6);
    assert_eq!(analyzer.send(&mut db, &update(BlockType::Block, "b4", 4, Some(400), Some("m3"))), 7);
    assert_eq!(db.blocks[4].id, "m3");
    assert_eq!(db.blocks[4].microblock_id.as_deref(), Some("b3"));
    assert!(db.blocks[4].is_solidified);
    assert_eq!(db.blocks[5].id, "m3");
    assert_eq!((db.blocks[5].uid, db.blocks[5].height, db.blocks[5].time_stamp), (6, 3, 300));
    assert!(db.blocks[5].is_solidified);
    assert_eq!(db.blocks[6].id, "b4");
    assert!(!db.blocks[6].is_solidified);
    // every record but the last block is solidified
    assert!(db.blocks[..6].iter().all(|b| b.is_solidified));

    // the identifier that a record had before it was rewritten finds nothing
    assert_eq!(analyzer.send(&mut db, &update(BlockType::Rollback, "b2", 3, None, None)), 7);
    assert_eq!(analyzer.send(&mut db, &update(BlockType::Rollback, "m3", 3, None, None)), 6);
    assert_eq!(db.blocks.len(), 6);
    assert_eq!(analyzer.send(&mut db, &update(BlockType::Rollback, "b1", 3, None, None)), 1);
    assert_eq!(db.blocks.len(), 1);
    assert!(!analyzer.was_microblocks && !analyzer.save_solidified);
}

#[test]
fn recovery_keeps_what_is_solidified_and_not_above_the_safe_height() {
    let mut db = Db::new();
    let b1 = save(&mut db, &text("a"), &10, &1, true, &BlockType::Block);
    let b2 = save(&mut db, &text("b"), &11, &2, true, &BlockType::Block);
    let b3 = save(&mut db, &text("c"), &12, &3, false, &BlockType::Block);
    let b4 = save(&mut db, &text("d"), &40, &4, true, &BlockType::Block);
    let b5 = save(&mut db, &text("e"), &9, &0, false, &BlockType::MicroBlock);
    // the history's safe height becomes 31 - 20 = 11
    save_chunk(
        &mut db,
        &vec![
            entry_at(b1, "A", 1, 31),
            entry_at(b2, "A", 2, 31),
            entry_at(b3, "A", 3, 31),
            entry_at(b4, "A", 4, 31),
            entry_at(b5, "A", 5, 31),
        ],
    );
    safe_heights::save(&mut db, "other", 70);
    assert_eq!(safe_heights::get(&db, "balance_history"), Some(11));
    assert_eq!(safe_heights::get(&db, "other"), Some(50));

    init_db_data(&mut db);
    let kept: Vec<i64> = db.blocks.iter().map(|b| b.uid).collect();
    assert_eq!(kept, vec![1, 2]);
    assert!(db.blocks.iter().all(|b| b.is_solidified && b.height <= 11));
    let balances: Vec<i64> = db.balances.iter().map(|b| b.block_uid).collect();
    assert_eq!(balances, vec![1, 2]);
    assert!(db.max_uids.iter().all(|m| m.balance_history_uid <= 2));
    // every safe height is that of the last record
    assert_eq!(safe_heights::get(&db, "balance_history"), Some(11));
    assert_eq!(safe_heights::get(&db, "other"), Some(11));
    assert_eq!(db.last_block_uid, 5);
}

#[test]
fn recovery_without_safe_heights_keeps_nothing_above_zero() {
    let mut db = Db::new();
    save(&mut db, &text("g"), &0, &1, true, &BlockType::Block);
    save(&mut db, &text("a"), &10, &1, true, &BlockType::Block);
    init_db_data(&mut db);
    assert_eq!(db.blocks.len(), 1);
    assert_eq!(db.blocks[0].id, "g");
    assert_eq!(db.safe_heights.len(), 0);

    let mut empty = Db::new();
    safe_heights::save(&mut empty, "t", 100);
    init_db_data(&mut empty);
    assert_eq!(safe_heights::get(&empty, "t"), Some(0));
}

#[test]
fn the_stream_is_asked_from_the_height_after_the_last() {
    assert_eq!(start_height(None, 5), 5);
    assert_eq!(start_height(None, -5), -5);
    assert_eq!(start_height(Some(10), 5), 11);
    assert_eq!(start_height(Some(10), 11), 11);
    assert_eq!(start_height(Some(10), 12), 12);
    assert_eq!(start_height(Some(i32::MAX - 1), 0), i32::MAX);
}
