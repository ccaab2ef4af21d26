use balances::api::repo::{CREATED, ACCEPTED};
use balances::api::server::{
    bh_handler_asset_distribution, bh_handler_asset_distribution_task, bh_handler_by_pairs,
};
use balances::api::{BalanceEntry, BalanceQuery};
use balances::api::error::AppError;
use balances::consumer::Consumer;
use balances::db::mappers::asset_distribution::refresh;
use balances::db::mappers::blocks_microblocks::save;
use balances::db::{Db, TaskState};
use balances::waves::bu::balance_updates::{save_chunk, BalanceHistory};
use balances::waves::events::{
    Amount, Append, BalanceUpdate, Block, BlockAppend, BlockchainUpdated, Body, Header,
    MicroBlock, MicroBlockAppend, Rollback, SignedMicroBlock, StateUpdate, SubscribeEvent, Update,
};
use balances::waves::{BlockType, BlockchainUpdateInfo};
use vstd::hash_map::StringHashMap;

fn id_bytes(text: &str) -> Vec<u8> {
    bs58::decode(text).into_vec().unwrap()
}

fn balance(address: &str, asset: &str, amount: i64) -> BalanceUpdate {
    BalanceUpdate {
        address: id_bytes(address),
        amount_after: Some(Amount { asset_id: id_bytes(asset), amount }),
        amount_before: 0,
    }
}

fn block_event(
    id: &str,
    reference: &str,
    height: i32,
    timestamp: i64,
    balances: Vec<BalanceUpdate>,
) -> Option<SubscribeEvent> {
    Some(SubscribeEvent {
        update: Some(BlockchainUpdated {
            id: id_bytes(id),
            height,
            update: Some(Update::Append(Append {
                state_update: Some(StateUpdate { balances }),
                body: Some(Body::Block(BlockAppend {
                    block: Some(Block {
                        header: Some(Header { reference: id_bytes(reference), timestamp }),
                    }),
                })),
                transaction_ids: vec![],
                transaction_state_updates: vec![],
            })),
        }),
    })
}

fn microblock_event(total_id: &str, height: i32, balances: Vec<BalanceUpdate>) -> Option<SubscribeEvent> {
    Some(SubscribeEvent {
        update: Some(BlockchainUpdated {
            id: id_bytes("mm"),
            height,
            update: Some(Update::Append(Append {
                state_update: Some(StateUpdate { balances }),
                body: Some(Body::MicroBlock(MicroBlockAppend {
                    micro_block: Some(SignedMicroBlock {
                        micro_block: Some(MicroBlock { reference: vec![] }),
                        total_block_id: id_bytes(total_id),
                    }),
                })),
                transaction_ids: vec![],
                transaction_state_updates: vec![],
            })),
        }),
    })
}

fn rollback_event(id: &str, height: i32, balances: Vec<BalanceUpdate>) -> Option<SubscribeEvent> {
    Some(SubscribeEvent {
        update: Some(BlockchainUpdated {
            id: id_bytes(id),
            height,
            update: Some(Update::Rollback(Rollback {
                rollback_state_update: Some(StateUpdate { balances }),
            })),
        }),
    })
}

fn handle(db: &mut Db, consumer: &mut Consumer, event: Option<SubscribeEvent>) -> i64 {
    let info = BlockchainUpdateInfo::from(event);
    let tagged = consumer.handle(db, info);
    tagged.uid.unwrap()
}

fn no_params() -> StringHashMap<String> {
    StringHashMap::new()
}

fn entry(block_uid: i64, address: &str, asset: &str, amount: i64, height: u32) -> BalanceHistory {
    BalanceHistory {
        block_uid,
        address: address.to_string(),
        asset_id: asset.to_string(),
        amount,
        block_height: height,
    }
}

#[test]
fn fresh_start_and_one_block() {
    let mut db = Db::new();
    let mut consumer = Consumer::new();
    let uid = handle(
        &mut db,
        &mut consumer,
        block_event("B1", "B", 100, 1000, vec![balance("A", "", 500)]),
    );
    consumer.balances.flush(&mut db);
    assert_eq!(uid, 1);
    assert_eq!(db.blocks.len(), 1);
    assert_eq!(db.blocks[0].uid, 1);
    assert_eq!(db.blocks[0].id, "B1");
    assert_eq!(db.blocks[0].height, 100);
    assert_eq!(db.blocks[0].time_stamp, 1000);
    assert!(db.blocks[0].is_solidified);
    assert_eq!(db.blocks[0].block_type, BlockType::Block);
    assert_eq!(db.balances.len(), 1);
    assert_eq!(db.balances[0].uid, 1);
    assert_eq!(db.balances[0].block_uid, 1);
    assert_eq!(db.balances[0].address_id, 1);
    assert_eq!(db.balances[0].asset_id, 1);
    assert_eq!(db.balances[0].amount, 500);
    assert_eq!(db.addresses[0].uid, 1);
    assert_eq!(db.addresses[0].text, "A");
    assert_eq!(db.assets[0].uid, 1);
    assert_eq!(db.assets[0].text, "WAVES");
    assert_eq!(db.max_uids.len(), 1);
    assert_eq!(db.max_uids[0].asset_id, 1);
    assert_eq!(db.max_uids[0].address_id, 1);
    assert_eq!(db.max_uids[0].height, 100);
    assert_eq!(db.max_uids[0].balance_history_uid, 1);
    assert_eq!(db.max_uids[0].amount, 500);
}

#[test]
fn microblock_then_confirming_block() {
    let mut db = Db::new();
    let mut consumer = Consumer::new();
    handle(&mut db, &mut consumer, block_event("B1", "B", 100, 1000, vec![]));
    assert!(db.blocks[0].is_solidified);

    let m = handle(&mut db, &mut consumer, microblock_event("M1", 101, vec![balance("A", "", 600)]));
    assert_eq!(m, 2);
    assert!(!db.blocks[0].is_solidified);
    assert_eq!(db.blocks[1].uid, 2);
    assert_eq!(db.blocks[1].id, "M1");
    assert_eq!(db.blocks[1].time_stamp, 0);
    assert!(!db.blocks[1].is_solidified);
    assert_eq!(db.blocks[1].block_type, BlockType::MicroBlock);
    // a microblock is written at once
    assert_eq!(db.balances.len(), 1);
    assert_eq!(db.balances[0].block_uid, 2);
    assert_eq!(db.balances[0].amount, 600);

    let b = handle(&mut db, &mut consumer, block_event("B2", "M1", 101, 1100, vec![]));
    assert_eq!(b, 3);
    assert_eq!(db.blocks.len(), 3);
    // the pending block takes the identifier that the new block refers to
    assert_eq!(db.blocks[0].uid, 1);
    assert_eq!(db.blocks[0].id, "M1");
    assert_eq!(db.blocks[0].microblock_id.as_deref(), Some("B1"));
    assert!(db.blocks[0].is_solidified);
    assert_eq!(db.blocks[0].time_stamp, 1000);
    // the microblock keeps its key and inherits from the pending block
    assert_eq!(db.blocks[1].uid, 2);
    assert_eq!(db.blocks[1].id, "M1");
    assert_eq!(db.blocks[1].microblock_id.as_deref(), Some("M1"));
    assert_eq!(db.blocks[1].height, 100);
    assert_eq!(db.blocks[1].time_stamp, 1000);
    assert!(db.blocks[1].is_solidified);
    assert_eq!(db.blocks[1].block_type, BlockType::MicroBlock);
    // the new block is a record of its own, pending until the next block
    assert_eq!(db.blocks[2].id, "B2");
    assert_eq!(db.blocks[2].height, 101);
    assert_eq!(db.blocks[2].time_stamp, 1100);
    assert!(!db.blocks[2].is_solidified);
    assert_eq!(db.blocks[2].microblock_id, None);
    // the balance that came with the microblock
    assert_eq!(db.balances.len(), 1);
    assert_eq!(db.balances[0].block_uid, 2);
    assert_eq!(db.balances[0].address_id, 1);
    assert_eq!(db.balances[0].asset_id, 1);
    assert_eq!(db.balances[0].amount, 600);
}

#[test]
fn rollback_to_the_block_before_a_microblock() {
    let mut db = Db::new();
    let mut consumer = Consumer::new();
    handle(&mut db, &mut consumer, block_event("B1", "B", 100, 1000, vec![balance("A", "", 500)]));
    handle(&mut db, &mut consumer, microblock_event("M1", 101, vec![balance("A", "", 600)]));
    assert_eq!(db.balances.len(), 2);
    assert_eq!(db.balances[1].uid, 2);
    assert_eq!(db.balances[1].block_uid, 2);

    let tip = handle(&mut db, &mut consumer, rollback_event("B1", 100, vec![balance("A", "", 500)]));
    assert_eq!(tip, 1);
    assert_eq!(db.blocks.len(), 1);
    assert_eq!(db.blocks[0].uid, 1);
    // the balance of the removed record went with it
    assert_eq!(db.balances.len(), 1);
    assert_eq!(db.balances[0].uid, 1);
    // the audit trail has the removed record
    assert_eq!(db.rollbacks.len(), 1);
    assert_eq!(db.rollbacks[0].id, "B1");
    assert_eq!(db.rollbacks[0].max_uid_kept, 1);
    assert_eq!(db.rollbacks[0].max_height, 101);
    assert_eq!(db.rollbacks[0].max_time_stamp, 0);
    assert_eq!(db.rollbacks[0].deleted_blocks_data, "2,M1,0,101,false");

    consumer.balances.flush(&mut db);
    assert_eq!(db.balances.len(), 2);
    assert_eq!(db.balances[1].uid, 3);
    assert_eq!(db.balances[1].block_uid, 1);
    assert_eq!(db.balances[1].amount, 500);
}

#[test]
fn rollback_to_an_identifier_that_was_rewritten_removes_nothing() {
    let mut db = Db::new();
    let mut consumer = Consumer::new();
    handle(&mut db, &mut consumer, block_event("B1", "B", 100, 1000, vec![]));
    handle(&mut db, &mut consumer, microblock_event("M1", 101, vec![balance("A", "", 600)]));
    handle(&mut db, &mut consumer, block_event("B2", "M1", 101, 1100, vec![]));
    let tip = handle(&mut db, &mut consumer, rollback_event("B1", 100, vec![balance("A", "", 500)]));
    assert_eq!(tip, 3);
    assert_eq!(db.blocks.len(), 3);
    assert_eq!(db.rollbacks[0].deleted_blocks_data, "");
    assert_eq!(db.rollbacks[0].max_uid_kept, 3);
    assert_eq!(db.rollbacks[0].max_height, 0);
    // a rollback to the rewritten identifier removes what follows its last record
    let tip = handle(&mut db, &mut consumer, rollback_event("M1", 100, vec![]));
    assert_eq!(tip, 2);
    assert_eq!(db.blocks.len(), 2);
    assert_eq!(db.rollbacks[1].deleted_blocks_data, "3,B2,1100,101,false");
    assert_eq!(db.rollbacks[1].max_height, 101);
    assert_eq!(db.rollbacks[1].max_time_stamp, 1100);
}

fn distribution_store() -> Db {
    let mut db = Db::new();
    let b1 = save(&mut db, &"B100".to_string(), &100, &1_000_000, true, &BlockType::Block);
    save(&mut db, &"B200".to_string(), &200, &2_000_000, true, &BlockType::Block);
    save_chunk(
        &mut db,
        &vec![
            entry(b1, "addr50", "X", 50, 100),
            entry(b1, "addr100", "X", 100, 100),
            entry(b1, "addr0", "X", 0, 100),
        ],
    );
    db
}

#[test]
fn distribution_task_happy_path() {
    let mut db = distribution_store();
    let created = bh_handler_asset_distribution_task("X".to_string(), 100, &mut db).unwrap();
    assert_eq!(created, 201);
    assert_eq!(created, CREATED);

    let processed = refresh(&mut db).unwrap();
    assert_eq!(processed, 1);
    assert_eq!(db.tasks[0].state, TaskState::Done);
    assert_eq!(db.snapshots.len(), 1);
    let rows = &db.snapshots[0].rows;
    assert_eq!(rows.len(), 2);
    assert_eq!((rows[0].uid, rows[0].amount, rows[0].height), (1, 100, 100));
    assert_eq!((rows[1].uid, rows[1].amount, rows[1].height), (2, 50, 100));
    assert_eq!(db.addresses[(rows[0].address_id - 1) as usize].text, "addr100");
    assert_eq!(db.addresses[(rows[1].address_id - 1) as usize].text, "addr50");

    let mut params = StringHashMap::new();
    params.insert("after".to_string(), "0".to_string());
    let (list, status) = bh_handler_asset_distribution("X".to_string(), 100, &db, &params).unwrap();
    assert_eq!(status, 200);
    assert_eq!(list.items.len(), 2);
    assert_eq!(list.items[0].uid, 1);
    assert_eq!(list.items[0].address, "addr100");
    assert_eq!(list.items[0].amount, 100);
    assert_eq!(list.items[0].height, 100);
    assert_eq!(list.items[1].uid, 2);
    assert_eq!(list.items[1].address, "addr50");
    assert_eq!(list.items[1].amount, 50);
    assert_eq!(list.items[1].height, 100);
    assert!(!list.page_info.has_next_page);
    assert_eq!(list.page_info.last_cursor.as_deref(), Some("2"));
}

#[test]
fn balance_at_timestamp_query() {
    let mut db = Db::new();
    let b1 = save(&mut db, &"B100".to_string(), &100, &1_000_000, true, &BlockType::Block);
    let b2 = save(&mut db, &"B200".to_string(), &200, &2_000_000, true, &BlockType::Block);
    save_chunk(&mut db, &vec![entry(b1, "A", "WAVES", 500, 100), entry(b2, "A", "WAVES", 700, 200)]);

    let mut params = StringHashMap::new();
    params.insert("timestamp".to_string(), "1970-01-01T00:25:00Z".to_string());
    let req = BalanceQuery {
        address_asset_pairs: vec![BalanceEntry {
            address: "A".to_string(),
            asset_id: "WAVES".to_string(),
        }],
    };
    let list = bh_handler_by_pairs(&db, req, &params).unwrap();
    assert_eq!(list.items.len(), 1);
    assert_eq!(list.items[0].address, "A");
    assert_eq!(list.items[0].asset_id, "WAVES");
    assert_eq!(list.items[0].amount, 500);
    assert_eq!(list.items[0].block_height, 100);
    assert_eq!(list.items[0].block_timestamp, 1000);
    assert!(!list.page_info.has_next_page);
    assert_eq!(list.page_info.last_cursor, None);

    let req = BalanceQuery {
        address_asset_pairs: vec![BalanceEntry {
            address: "A".to_string(),
            asset_id: "WAVES".to_string(),
        }],
    };
    let latest = bh_handler_by_pairs(&db, req, &no_params()).unwrap();
    assert_eq!(latest.items[0].amount, 700);
    assert_eq!(latest.items[0].block_height, 200);
    assert_eq!(latest.items[0].block_timestamp, 2000);
}

#[test]
fn height_admission() {
    let mut db = Db::new();
    save(&mut db, &"B".to_string(), &100, &1000, true, &BlockType::Block);

    // 79 = 100 - 21 is the greatest height that is admitted
    match bh_handler_asset_distribution_task("X".to_string(), 80, &mut db) {
        Err(AppError::ValidationErrorCustom(m)) => assert_eq!(
            m,
            "height to big to create asset distribution. max height at the moment is 79"
        ),
        _ => panic!("a height of 80 is too close to 100"),
    }
    assert!(matches!(
        bh_handler_asset_distribution_task("X".to_string(), 85, &mut db),
        Err(AppError::ValidationErrorCustom(_))
    ));
    assert_eq!(db.tasks.len(), 0);
    assert_eq!(bh_handler_asset_distribution_task("X".to_string(), 79, &mut db).unwrap(), 201);
    assert_eq!(db.tasks.len(), 1);
    // the same request again is accepted and changes nothing
    assert_eq!(bh_handler_asset_distribution_task("X".to_string(), 79, &mut db).unwrap(), 202);
    assert_eq!(bh_handler_asset_distribution_task("X".to_string(), 79, &mut db).unwrap(), ACCEPTED);
    assert_eq!(db.tasks.len(), 1);
    assert_eq!(db.tasks[0].uid, 1);
    assert_eq!(db.tasks[0].asset_id, "X");
    assert_eq!(db.tasks[0].height, 79);
    assert_eq!(db.tasks[0].state, TaskState::New);
}

fn stream() -> Vec<Option<SubscribeEvent>> {
    vec![
        block_event("B1", "B", 100, 1000, vec![balance("A", "", 500), balance("C", "X", 7)]),
        block_event("B2", "B1", 101, 1100, vec![balance("A", "X", 3)]),
        microblock_event("M1", 101, vec![balance("A", "", 600)]),
        microblock_event("M2", 101, vec![balance("C", "", 1), balance("A", "", 2)]),
        block_event("B3", "M2", 102, 1200, vec![balance("D", "Y", 9)]),
        rollback_event("M2", 101, vec![balance("A", "", 600)]),
        microblock_event("M3", 101, vec![]),
        block_event("B4", "M3", 102, 1300, vec![balance("A", "", 4)]),
    ]
}

fn replay() -> (Db, Vec<i64>) {
    let mut db = Db::new();
    let mut consumer = Consumer::new();
    let uids = stream().into_iter().map(|e| handle(&mut db, &mut consumer, e)).collect();
    consumer.balances.flush(&mut db);
    (db, uids)
}

#[test]
fn replaying_a_stream_gives_the_same_history() {
    let (first, first_uids) = replay();
    let (second, second_uids) = replay();
    assert_eq!(first_uids, second_uids);
    assert_eq!(first_uids, vec![1, 2, 3, 4, 5, 4, 6, 7]);
    assert_eq!(first.balances, second.balances);
    assert_eq!(first.max_uids, second.max_uids);
    let rows: Vec<(i64, i64, i64, i64, i64)> =
        first.balances.iter().map(|b| (b.uid, b.block_uid, b.address_id, b.asset_id, b.amount)).collect();
    assert_eq!(
        rows,
        vec![
            (1, 1, 1, 1, 500),
            (2, 1, 2, 2, 7),
            (3, 2, 1, 2, 3),
            (4, 3, 1, 1, 600),
            (5, 4, 2, 1, 1),
            (6, 4, 1, 1, 2),
            // the entry of the block that the rollback removed is dropped,
            // the correction is filed under the record that the rollback left
            (7, 4, 1, 1, 600),
            (8, 7, 1, 1, 4),
        ]
    );
    let ledgers: Vec<Vec<(i64, String, bool)>> = [&first, &second]
        .iter()
        .map(|db| db.blocks.iter().map(|b| (b.uid, b.id.clone(), b.is_solidified)).collect())
        .collect();
    assert_eq!(ledgers[0], ledgers[1]);
    // the pending records stand at the end of the ledger
    let solidified: Vec<bool> = first.blocks.iter().map(|b| b.is_solidified).collect();
    assert_eq!(solidified, vec![true, true, true, true, false, false]);
}
