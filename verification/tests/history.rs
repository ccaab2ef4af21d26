use balances::db::mappers::balance_history::save_bulk;
use balances::db::mappers::balance_history_max_uids_per_height::fill_from_balance_history;
use balances::db::mappers::blocks_microblocks::save;
use balances::db::mappers::safe_heights;
use balances::db::mappers::{unique_address, unique_assets};
use balances::db::Db;
use balances::waves::bu::balance_updates::{
    process, push_balances, save_chunk, Analyzer, BalanceHistory, CHUNK_SIZE,
};
use balances::waves::events::{Amount, BalanceUpdate, Rollback, StateUpdate};
use balances::waves::{BlockType, BlockchainUpdateInfo};

fn text(s: &str) -> String {
    s.to_string()
}

fn entry(block_uid: i64, address: &str, asset: &str, amount: i64, height: u32) -> BalanceHistory {
    BalanceHistory {
        block_uid,
        address: text(address),
        asset_id: text(asset),
        amount,
        block_height: height,
    }
}

fn addresses(names: &[&str]) -> Vec<BalanceHistory> {
    names.iter().map(|n| entry(1, n, "WAVES", 0, 1)).collect()
}

fn assets(names: &[&str]) -> Vec<BalanceHistory> {
    names.iter().map(|n| entry(1, "A", n, 0, 1)).collect()
}

fn balance(address: &[u8], asset: &[u8], amount: i64) -> BalanceUpdate {
    BalanceUpdate {
        address: address.to_vec(),
        amount_after: Some(Amount { asset_id: asset.to_vec(), amount }),
        amount_before: 0,
    }
}

#[test]
fn addresses_get_keys_in_the_order_of_their_first_occurrence() {
    let mut db = Db::new();
    let map = unique_address::merge_bulk(&mut db, &addresses(&["b", "a", "b", "c", "a"]));
    assert_eq!(map.len(), 3);
    assert_eq!(map.get("b"), Some(&1));
    assert_eq!(map.get("a"), Some(&2));
    assert_eq!(map.get("c"), Some(&3));
    assert_eq!(db.last_address_uid, 3);
    let texts: Vec<&str> = db.addresses.iter().map(|r| r.text.as_str()).collect();
    assert_eq!(texts, vec!["b", "a", "c"]);

    // known addresses keep their keys
    let map = unique_address::merge_bulk(&mut db, &addresses(&["c", "d", "b"]));
    assert_eq!(map.len(), 3);
    assert_eq!(map.get("c"), Some(&3));
    assert_eq!(map.get("d"), Some(&4));
    assert_eq!(map.get("b"), Some(&1));
    assert_eq!(map.get("a"), None);
    assert_eq!(db.addresses.len(), 4);

    let map = unique_address::merge_bulk(&mut db, &vec![]);
    assert_eq!(map.len(), 0);
    assert_eq!(db.addresses.len(), 4);
}

#[test]
fn merging_in_parts_gives_what_merging_at_once_gives() {
    let all = ["q", "w", "e", "q", "r", "w", "t", "y", "e", "u"];
    let mut whole = Db::new();
    let map = unique_address::merge_bulk(&mut whole, &addresses(&all));
    for cut in 0..=all.len() {
        let mut parts = Db::new();
        let first = unique_address::merge_bulk(&mut parts, &addresses(&all[..cut]));
        let second = unique_address::merge_bulk(&mut parts, &addresses(&all[cut..]));
        assert_eq!(parts.addresses.len(), whole.addresses.len());
        for (a, b) in parts.addresses.iter().zip(whole.addresses.iter()) {
            assert_eq!((a.uid, &a.text), (b.uid, &b.text));
        }
        for name in &all[..cut] {
            assert_eq!(first.get(name), map.get(name));
        }
        for name in &all[cut..] {
            assert_eq!(second.get(name), map.get(name));
        }
    }
}

#[test]
fn the_native_asset_has_its_reserved_key() {
    let mut db = Db::new();
    let map = unique_assets::merge_bulk(&mut db, &assets(&["", "X", "WAVES", "Y", "X"]));
    assert_eq!(map.get(""), Some(&1));
    assert_eq!(map.get("WAVES"), Some(&1));
    assert_eq!(map.get("X"), Some(&2));
    assert_eq!(map.get("Y"), Some(&3));
    assert_eq!(map.len(), 4);
    let texts: Vec<&str> = db.assets.iter().map(|r| r.text.as_str()).collect();
    assert_eq!(texts, vec!["WAVES", "X", "Y"]);

    // both names of the native asset are there even when no entry has them
    let mut fresh = Db::new();
    let map = unique_assets::merge_bulk(&mut fresh, &vec![]);
    assert_eq!(map.len(), 2);
    assert_eq!(map.get(""), Some(&1));
    assert_eq!(map.get("WAVES"), Some(&1));
    assert_eq!(fresh.assets.len(), 1);
}

#[test]
fn an_entry_whose_block_is_gone_is_dropped() {
    let mut db = Db::new();
    let b1 = save(&mut db, &text("a"), &1, &10, true, &BlockType::Block);
    let b2 = save(&mut db, &text("b"), &2, &20, true, &BlockType::Block);
    let chunk = vec![
        entry(b1, "A", "", 5, 1),
        entry(77, "A", "", 6, 1),
        entry(b2, "B", "X", 7, 2),
        entry(0, "B", "X", 8, 2),
    ];
    let asset_ids = unique_assets::merge_bulk(&mut db, &chunk);
    let address_ids = unique_address::merge_bulk(&mut db, &chunk);
    let uids = save_bulk(&mut db, &chunk, &asset_ids, &address_ids);
    assert_eq!(uids, vec![1, 2]);
    assert_eq!(db.balances.len(), 2);
    assert_eq!(
        (db.balances[0].uid, db.balances[0].block_uid, db.balances[0].address_id, db.balances[0].asset_id, db.balances[0].amount),
        (1, 1, 1, 1, 5)
    );
    assert_eq!(
        (db.balances[1].uid, db.balances[1].block_uid, db.balances[1].address_id, db.balances[1].asset_id, db.balances[1].amount),
        (2, 2, 2, 2, 7)
    );
    for row in &db.balances {
        assert!(db.blocks.iter().any(|b| b.uid == row.block_uid));
    }
}

#[test]
fn the_index_holds_the_latest_row_of_each_asset_address_and_height() {
    let mut db = Db::new();
    let b1 = save(&mut db, &text("a"), &10, &10, true, &BlockType::Block);
    let b2 = save(&mut db, &text("b"), &10, &0, true, &BlockType::MicroBlock);
    let b3 = save(&mut db, &text("c"), &11, &20, true, &BlockType::Block);
    save_chunk(
        &mut db,
        &vec![
            entry(b1, "A", "", 1, 10),
            entry(b2, "A", "", 2, 10),
            entry(b3, "A", "", 3, 11),
            entry(b1, "B", "", 4, 10),
            entry(b1, "A", "X", 5, 10),
        ],
    );
    assert_eq!(db.max_uids.len(), 4);
    let rows: Vec<(i64, i64, i64, i64, i64, i32, i64)> = db
        .max_uids
        .iter()
        .map(|m| (m.uid, m.balance_history_uid, m.asset_id, m.address_id, m.block_uid, m.height, m.amount))
        .collect();
    assert_eq!(
        rows,
        vec![(1, 2, 1, 1, 2, 10, 2), (2, 3, 1, 1, 3, 11, 3), (3, 4, 1, 2, 1, 10, 4), (4, 5, 2, 1, 1, 10, 5)]
    );

    // a later chunk overwrites the row of its key and leaves the others
    save_chunk(&mut db, &vec![entry(b1, "A", "", 9, 10)]);
    assert_eq!(db.max_uids.len(), 4);
    assert_eq!(db.max_uids[0].uid, 1);
    assert_eq!(db.max_uids[0].balance_history_uid, 6);
    assert_eq!(db.max_uids[0].amount, 9);
    assert_eq!(db.max_uids[0].block_uid, 2);
    assert_eq!(db.max_uids[1].balance_history_uid, 3);
    assert_eq!(db.last_max_uid_uid, 4);

    // for every asset, address and height the index has the greatest key
    for m in &db.max_uids {
        let latest = db
            .balances
            .iter()
            .filter(|b| {
                b.asset_id == m.asset_id
                    && b.address_id == m.address_id
                    && db.blocks.iter().any(|k| k.uid == b.block_uid && k.height == m.height)
            })
            .map(|b| (b.uid, b.amount))
            .max()
            .unwrap();
        assert_eq!((m.balance_history_uid, m.amount), latest);
    }
}

#[test]
fn filling_from_no_rows_changes_nothing() {
    let mut db = Db::new();
    let b1 = save(&mut db, &text("a"), &10, &10, true, &BlockType::Block);
    save_chunk(&mut db, &vec![entry(b1, "A", "", 1, 10)]);
    fill_from_balance_history(&mut db, &vec![]);
    assert_eq!(db.max_uids.len(), 1);
    fill_from_balance_history(&mut db, &vec![42]);
    assert_eq!(db.max_uids.len(), 1);
    assert_eq!(db.max_uids[0].balance_history_uid, 1);
}

#[test]
fn safe_heights_keep_their_distance_and_never_fall() {
    let mut db = Db::new();
    safe_heights::save(&mut db, "t", 100);
    assert_eq!(safe_heights::get(&db, "t"), Some(80));
    safe_heights::save(&mut db, "t", 90);
    assert_eq!(safe_heights::get(&db, "t"), Some(80));
    safe_heights::save(&mut db, "t", 101);
    assert_eq!(safe_heights::get(&db, "t"), Some(81));
    safe_heights::save(&mut db, "u", 19);
    assert_eq!(safe_heights::get(&db, "u"), Some(0));
    safe_heights::save(&mut db, "u", 20);
    assert_eq!(safe_heights::get(&db, "u"), Some(0));
    safe_heights::save(&mut db, "u", 21);
    assert_eq!(safe_heights::get(&db, "u"), Some(1));
    assert_eq!(safe_heights::get(&db, "v"), None);
    assert_eq!(db.safe_heights.len(), 2);
}

#[test]
fn a_chunk_moves_the_safe_height_by_its_least_height() {
    let mut db = Db::new();
    let b1 = save(&mut db, &text("a"), &50, &10, true, &BlockType::Block);
    save_chunk(&mut db, &vec![entry(b1, "A", "", 1, 50), entry(b1, "A", "", 2, 45), entry(b1, "A", "", 3, 60)]);
    assert_eq!(safe_heights::get(&db, "balance_history"), Some(25));
    // an empty chunk counts as height 1
    let mut fresh = Db::new();
    save_chunk(&mut fresh, &vec![]);
    assert_eq!(safe_heights::get(&fresh, "balance_history"), Some(0));
    assert_eq!(fresh.balances.len(), 0);
}

#[test]
fn balances_become_entries_with_base58_texts() {
    let mut chunk = Vec::new();
    let balances = vec![
        balance(&[1, 2, 3], &[], 10),
        BalanceUpdate { address: vec![9], amount_after: None, amount_before: 3 },
        balance(&[0, 0, 1], &[255, 254], -4),
    ];
    push_balances(7, &3, &balances, &mut chunk);
    assert_eq!(chunk.len(), 2);
    assert_eq!(chunk[0].address, bs58::encode([1u8, 2, 3]).into_string());
    assert_eq!(chunk[0].address, "Ldp");
    assert_eq!(chunk[0].asset_id, "");
    assert_eq!((chunk[0].block_uid, chunk[0].amount, chunk[0].block_height), (3, 10, 7));
    assert_eq!(chunk[1].address, "112");
    assert_eq!(chunk[1].asset_id, bs58::encode([255u8, 254]).into_string());
    assert_ne!(chunk[1].asset_id.as_bytes(), &[255u8, 254]);
    assert_eq!((chunk[1].block_uid, chunk[1].amount, chunk[1].block_height), (3, -4, 7));
}

#[test]
fn an_update_gives_its_state_then_its_transactions_then_its_corrections() {
    let mut u = BlockchainUpdateInfo::default();
    u.uid = Some(5);
    u.height = Some(9);
    u.block_type = BlockType::Block;
    u.state_updates = Some(StateUpdate { balances: vec![balance(&[1], &[], 1)] });
    u.transaction_state_updates = vec![
        StateUpdate { balances: vec![balance(&[2], &[], 2), balance(&[3], &[], 3)] },
        StateUpdate { balances: vec![] },
        StateUpdate { balances: vec![balance(&[4], &[], 4)] },
    ];
    u.rollback_data = Some(Rollback {
        rollback_state_update: Some(StateUpdate { balances: vec![balance(&[5], &[], 5)] }),
    });
    let mut chunk = vec![entry(1, "first", "", 0, 1)];
    process(&u, &mut chunk);
    let amounts: Vec<i64> = chunk.iter().map(|e| e.amount).collect();
    assert_eq!(amounts, vec![0, 1, 2, 3, 4, 5]);
    assert!(chunk[1..].iter().all(|e| e.block_uid == 5 && e.block_height == 9));
}

fn update_with(kind: BlockType, uid: i64, n: usize) -> BlockchainUpdateInfo {
    let mut u = BlockchainUpdateInfo::default();
    u.uid = Some(uid);
    u.height = Some(30);
    u.block_type = kind;
    u.state_updates = Some(StateUpdate {
        balances: (0..n).map(|i| balance(&[1, (i % 250) as u8, (i / 250) as u8], &[], i as i64)).collect(),
    });
    u
}

#[test]
fn entries_wait_until_a_microblock_comes_or_the_chunk_is_full() {
    let mut db = Db::new();
    let b1 = save(&mut db, &text("a"), &30, &10, true, &BlockType::Block);
    let mut analyzer = Analyzer::new();
    assert_eq!(CHUNK_SIZE, 1000);

    analyzer.send(&mut db, &update_with(BlockType::Block, b1, 1000));
    assert_eq!(analyzer.chunk.len(), 1000);
    assert_eq!(db.balances.len(), 0);

    analyzer.send(&mut db, &update_with(BlockType::Block, b1, 1));
    assert_eq!(analyzer.chunk.len(), 0);
    assert_eq!(db.balances.len(), 1001);

    analyzer.send(&mut db, &update_with(BlockType::Rollback, b1, 2));
    assert_eq!(analyzer.chunk.len(), 2);
    assert_eq!(db.balances.len(), 1001);

    analyzer.send(&mut db, &update_with(BlockType::MicroBlock, b1, 0));
    assert_eq!(analyzer.chunk.len(), 0);
    assert_eq!(db.balances.len(), 1003);

    analyzer.send(&mut db, &update_with(BlockType::Block, b1, 3));
    analyzer.flush(&mut db);
    assert_eq!(analyzer.chunk.len(), 0);
    assert_eq!(db.balances.len(), 1006);
    assert_eq!(db.last_balance_uid, 1006);
}
