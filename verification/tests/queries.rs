use balances::api::error::AppError;
use balances::api::repo::{
    all_assets_by_address, balance_history_aggregated, balance_query, distinct_assets_by_address,
    get_balances_by_pairs, get_uids_from_req, last_solidified_height, lookup, read_uids_query,
    resolve_uid, to_day_stamp, UidsQuery,
};
use balances::api::server::{
    bh_balance_aggregates, bh_handler_address, bh_handler_by_pairs, error_reply, to_day_bound,
    ErrorReply,
};
use balances::api::{BalanceEntry, BalanceQuery, BalanceResponseAggItem, PG_MAX_BIGINT};
use balances::db::mappers::blocks_microblocks::{rollback, save};
use balances::db::Db;
use balances::waves::bu::balance_updates::{save_chunk, BalanceHistory};
use balances::waves::BlockType;
use vstd::hash_map::StringHashMap;

fn text(s: &str) -> String {
    s.to_string()
}

fn params(pairs: &[(&str, &str)]) -> StringHashMap<String> {
    let mut m = StringHashMap::new();
    for (k, v) in pairs {
        m.insert(text(k), text(v));
    }
    m
}

fn entry(block_uid: i64, address: &str, asset: &str, amount: i64) -> BalanceHistory {
    BalanceHistory { block_uid, address: text(address), asset_id: text(asset), amount, block_height: 50 }
}

fn pair(address: &str, asset: &str) -> BalanceEntry {
    BalanceEntry { address: text(address), asset_id: text(asset) }
}

const DAY: i64 = 86_400_000;

fn store() -> Db {
    let mut db = Db::new();
    let b1 = save(&mut db, &text("b1"), &100, &(DAY + 1_000_000), true, &BlockType::Block);
    let b2 = save(&mut db, &text("b2"), &200, &(DAY + 2_000_999), true, &BlockType::Block);
    let b3 = save(&mut db, &text("b3"), &300, &(3 * DAY), false, &BlockType::Block);
    save_chunk(
        &mut db,
        &vec![
            entry(b1, "A", "WAVES", 500),
            entry(b1, "A", "X", 1),
            entry(b1, "B", "X", 2),
            entry(b2, "A", "", 700),
            entry(b2, "A", "Y", 3),
            entry(b3, "A", "X", 4),
            entry(b3, "A", "WAVES", 900),
        ],
    );
    db
}

fn message(r: Result<i64, AppError>) -> String {
    match r {
        Err(AppError::InvalidQueryString(m)) => m,
        _ => panic!("the query is refused"),
    }
}

#[test]
fn the_moment_of_a_request_is_its_height_or_else_its_timestamp() {
    assert_eq!(read_uids_query(&params(&[])).ok(), Some(UidsQuery::Nothing));
    assert!(UidsQuery::Nothing.is_none());
    assert!(!UidsQuery::ByHeight(1).is_none());
    assert!(!UidsQuery::ByTimestamp(1).is_none());
    assert_eq!(read_uids_query(&params(&[("height", "150")])).ok(), Some(UidsQuery::ByHeight(150)));
    assert_eq!(
        read_uids_query(&params(&[("timestamp", "2020-02-03T04:05:06.789Z")])).ok(),
        Some(UidsQuery::ByTimestamp(1580702706))
    );
    assert_eq!(
        read_uids_query(&params(&[("timestamp", "1970-01-01 01:00:00+01:00")])).ok(),
        Some(UidsQuery::ByTimestamp(0))
    );
    assert_eq!(
        read_uids_query(&params(&[("timestamp", "1969-12-31T23:59:59.5Z")])).ok(),
        Some(UidsQuery::ByTimestamp(-1))
    );
    // a height decides before a timestamp is looked at
    assert_eq!(
        read_uids_query(&params(&[("height", "7"), ("timestamp", "never")])).ok(),
        Some(UidsQuery::ByHeight(7))
    );
    assert_eq!(read_uids_query(&params(&[("other", "x")])).ok(), Some(UidsQuery::Nothing));
}

#[test]
fn a_moment_that_cannot_be_read_is_refused() {
    let db = store();
    assert_eq!(message(get_uids_from_req(&db, &params(&[("height", "x")]))), "invalid parameter height");
    assert_eq!(message(get_uids_from_req(&db, &params(&[("height", "-1")]))), "invalid parameter height");
    assert_eq!(message(get_uids_from_req(&db, &params(&[("height", "")]))), "invalid parameter height");
    assert_eq!(
        message(get_uids_from_req(&db, &params(&[("height", "x"), ("timestamp", "1970-01-01T00:00:00Z")]))),
        "invalid parameter height"
    );
    assert_eq!(message(get_uids_from_req(&db, &params(&[("timestamp", "yesterday")]))), "invalid timestamp");
    assert_eq!(message(get_uids_from_req(&db, &params(&[("timestamp", "1970-01-01")]))), "invalid timestamp");
    assert_eq!(message(get_uids_from_req(&db, &params(&[("timestamp", "1500")]))), "invalid timestamp");
}

#[test]
fn a_moment_resolves_to_the_last_record_that_is_as_early() {
    let db = store();
    assert_eq!(get_uids_from_req(&db, &params(&[])).ok(), Some(PG_MAX_BIGINT));
    assert_eq!(PG_MAX_BIGINT, i64::MAX);
    assert_eq!(resolve_uid(&db, UidsQuery::Nothing), 9223372036854775807);
    assert_eq!(resolve_uid(&db, UidsQuery::ByHeight(100)), 1);
    assert_eq!(resolve_uid(&db, UidsQuery::ByHeight(199)), 1);
    assert_eq!(resolve_uid(&db, UidsQuery::ByHeight(200)), 2);
    // a height in the future gives the last record
    assert_eq!(resolve_uid(&db, UidsQuery::ByHeight(1_000_000)), 3);
    assert_eq!(get_uids_from_req(&db, &params(&[("height", "300")])).ok(), Some(3));
    // before the first record there is nothing to resolve to
    assert_eq!(resolve_uid(&db, UidsQuery::ByHeight(99)), PG_MAX_BIGINT);
    // a height beyond the signed range reads as a negative one
    assert_eq!(resolve_uid(&db, UidsQuery::ByHeight(4_000_000_000)), PG_MAX_BIGINT);
    assert_eq!(resolve_uid(&db, UidsQuery::ByTimestamp(86_400 + 999)), PG_MAX_BIGINT);
    assert_eq!(resolve_uid(&db, UidsQuery::ByTimestamp(86_400 + 1000)), 1);
    assert_eq!(resolve_uid(&db, UidsQuery::ByTimestamp(86_400 + 1999)), 1);
    assert_eq!(resolve_uid(&db, UidsQuery::ByTimestamp(86_400 + 2000)), 2);
    assert_eq!(resolve_uid(&db, UidsQuery::ByTimestamp(i64::MAX)), 3);
    assert_eq!(
        get_uids_from_req(&db, &params(&[("timestamp", "1970-01-02T00:33:20Z")])).ok(),
        Some(2)
    );
    assert_eq!(resolve_uid(&Db::new(), UidsQuery::ByHeight(5)), PG_MAX_BIGINT);
}

#[test]
fn a_balance_is_that_of_the_latest_block_up_to_the_key() {
    let db = store();
    let item = balance_query(&db, &PG_MAX_BIGINT, &pair("A", "WAVES")).unwrap();
    assert_eq!(
        (item.address.as_str(), item.asset_id.as_str(), item.amount, item.block_height, item.block_timestamp),
        ("A", "WAVES", 900, 300, 259_200)
    );
    let item = balance_query(&db, &2, &pair("A", "WAVES")).unwrap();
    assert_eq!((item.amount, item.block_height, item.block_timestamp), (700, 200, 88_400));
    let item = balance_query(&db, &1, &pair("A", "WAVES")).unwrap();
    assert_eq!((item.amount, item.block_height, item.block_timestamp), (500, 100, 87_400));
    assert!(balance_query(&db, &0, &pair("A", "WAVES")).is_none());
    assert!(balance_query(&db, &2, &pair("B", "Y")).is_none());
    assert!(balance_query(&db, &2, &pair("nobody", "X")).is_none());
    assert!(balance_query(&db, &2, &pair("A", "nothing")).is_none());
    // the dictionary has no entry for the empty text
    assert!(balance_query(&db, &2, &pair("A", "")).is_none());
    assert_eq!(lookup(&db.assets, &text("WAVES"), db.last_asset_uid), Some(1));
    assert_eq!(lookup(&db.assets, &text(""), db.last_asset_uid), None);
}

#[test]
fn of_the_rows_after_one_block_the_one_written_last_holds() {
    let mut db = Db::new();
    let b1 = save(&mut db, &text("b1"), &100, &1000, true, &BlockType::Block);
    let b2 = save(&mut db, &text("b2"), &101, &2000, true, &BlockType::Block);
    save_chunk(&mut db, &vec![entry(b1, "A", "X", 1), entry(b2, "A", "X", 2)]);
    rollback(&mut db, &text("b1"));
    save_chunk(&mut db, &vec![entry(b1, "A", "X", 3)]);
    let item = balance_query(&db, &PG_MAX_BIGINT, &pair("A", "X")).unwrap();
    assert_eq!((item.amount, item.block_height), (3, 100));
    // a row after a later block wins over a row written later
    let b3 = save(&mut db, &text("b3"), &102, &3000, true, &BlockType::Block);
    save_chunk(&mut db, &vec![entry(b3, "A", "X", 4), entry(b1, "A", "X", 5)]);
    let item = balance_query(&db, &PG_MAX_BIGINT, &pair("A", "X")).unwrap();
    assert_eq!((item.amount, item.block_height), (4, 102));
    let item = balance_query(&db, &2, &pair("A", "X")).unwrap();
    assert_eq!((item.amount, item.block_height), (5, 100));
}

#[test]
fn balances_of_pairs_come_in_the_order_of_the_pairs() {
    let db = store();
    let req = BalanceQuery {
        address_asset_pairs: vec![pair("B", "X"), pair("B", "WAVES"), pair("A", "Y"), pair("A", "X"), pair("A", "X")],
    };
    let items = get_balances_by_pairs(&db, &2, &req);
    let got: Vec<(&str, &str, i64)> =
        items.iter().map(|i| (i.address.as_str(), i.asset_id.as_str(), i.amount)).collect();
    assert_eq!(got, vec![("B", "X", 2), ("A", "Y", 3), ("A", "X", 1), ("A", "X", 1)]);
    assert_eq!(get_balances_by_pairs(&db, &2, &BalanceQuery { address_asset_pairs: vec![] }).len(), 0);
}

fn query_of(n: usize) -> BalanceQuery {
    BalanceQuery::from_query_by_address(text("A"), (0..n).map(|i| if i == 0 { text("X") } else { format!("n{}", i) }).collect())
}

#[test]
fn a_hundred_pairs_are_answered_and_one_more_is_refused() {
    let db = store();
    let list = bh_handler_by_pairs(&db, query_of(100), &params(&[])).unwrap();
    assert_eq!(list.items.len(), 1);
    assert_eq!(list.items[0].amount, 4);
    assert_eq!(list.page_info.last_cursor, None);
    assert!(!list.page_info.has_next_page);
    match bh_handler_by_pairs(&db, query_of(101), &params(&[])) {
        Err(AppError::ValidationErrorCustom(m)) => assert_eq!(m, "balance/address pairs limited to 100"),
        _ => panic!("101 pairs are too many"),
    }
    // the moment is looked at first
    assert!(matches!(
        bh_handler_by_pairs(&db, query_of(101), &params(&[("height", "x")])),
        Err(AppError::InvalidQueryString(_))
    ));
    assert!(bh_handler_by_pairs(&db, query_of(0), &params(&[("height", "1")])).unwrap().items.is_empty());
}

#[test]
fn a_query_by_address_pairs_it_with_each_asset() {
    let q = BalanceQuery::from_query_by_address(text("addr"), vec![text("a"), text(""), text("a")]);
    let got: Vec<(&str, &str)> =
        q.address_asset_pairs.iter().map(|e| (e.address.as_str(), e.asset_id.as_str())).collect();
    assert_eq!(got, vec![("addr", "a"), ("addr", ""), ("addr", "a")]);
    assert!(BalanceQuery::from_query_by_address(text("addr"), vec![]).address_asset_pairs.is_empty());
}

#[test]
fn an_address_has_the_assets_that_it_has_rows_for() {
    let db = store();
    let got: Vec<(String, String)> =
        distinct_assets_by_address(&db, &text("A")).into_iter().map(|e| (e.address, e.asset_id)).collect();
    assert_eq!(got, vec![(text("A"), text("WAVES")), (text("A"), text("X")), (text("A"), text("Y"))]);
    assert_eq!(distinct_assets_by_address(&db, &text("B")).len(), 1);
    assert_eq!(distinct_assets_by_address(&db, &text("nobody")).len(), 0);

    let items = all_assets_by_address(&db, &text("A"), &2);
    let got: Vec<(&str, i64, i32)> = items.iter().map(|i| (i.asset_id.as_str(), i.amount, i.block_height)).collect();
    assert_eq!(got, vec![("WAVES", 700, 200), ("X", 1, 100), ("Y", 3, 200)]);
    let items = all_assets_by_address(&db, &text("A"), &1);
    assert_eq!(items.len(), 2);

    let list = bh_handler_address(text("A"), &db, &params(&[("height", "100")])).unwrap();
    let got: Vec<(&str, i64)> = list.items.iter().map(|i| (i.asset_id.as_str(), i.amount)).collect();
    assert_eq!(got, vec![("WAVES", 500), ("X", 1)]);
    assert!(!list.page_info.has_next_page);
    assert!(matches!(
        bh_handler_address(text("A"), &db, &params(&[("timestamp", "x")])),
        Err(AppError::InvalidQueryString(_))
    ));
    assert_eq!(bh_handler_address(text("nobody"), &db, &params(&[])).unwrap().items.len(), 0);
}

#[test]
fn the_height_of_the_ledger_is_that_of_its_last_solidified_record() {
    let db = store();
    assert_eq!(last_solidified_height(&db), 200);
    assert_eq!(last_solidified_height(&Db::new()), 0);
}

#[test]
fn days_start_at_midnight() {
    assert_eq!(to_day_stamp(0), 0);
    assert_eq!(to_day_stamp(DAY - 1), 0);
    assert_eq!(to_day_stamp(DAY), 86_400);
    assert_eq!(to_day_stamp(-1), -86_400);
    assert_eq!(to_day_stamp(-DAY), -86_400);
    assert_eq!(to_day_stamp(-DAY - 1), -172_800);
    assert_eq!(to_day_stamp(i64::MAX), (i64::MAX / DAY) * 86_400);
    assert_eq!(to_day_stamp(i64::MIN), (i64::MIN / DAY - 1) * 86_400);

    assert_eq!(to_day_bound((0, 0), false), Some(0));
    assert_eq!(to_day_bound((0, 0), true), Some(86_399_000));
    assert_eq!(to_day_bound((86_399, 999), false), Some(999));
    assert_eq!(to_day_bound((86_400, 5), true), Some(172_799_005));
    assert_eq!(to_day_bound((-1, 250), false), Some(-86_400_000 + 250));
    assert_eq!(to_day_bound((-1, 250), true), Some(-1000 + 250));
    assert_eq!(to_day_bound((i64::MAX, 0), false), None);
    assert_eq!(to_day_bound((i64::MIN, 0), true), None);
    assert_eq!(to_day_bound((9_223_372_036_854_775, 807), false), Some(9_223_372_036_828_800_807));
    assert_eq!(to_day_bound((9_223_372_036_854_775, 807), true), None);
}

fn days(items: &Vec<BalanceResponseAggItem>) -> Vec<(i64, i64, i64)> {
    items.iter().map(|i| (i.date_stamp, i.amount_begin, i.amount_end)).collect()
}

#[test]
fn a_day_has_its_first_and_its_last_balance() {
    let db = store();
    let all = balance_history_aggregated(&db, &text("A"), &text("WAVES"), 0, PG_MAX_BIGINT);
    assert_eq!(days(&all), vec![(86_400, 500, 700), (259_200, 900, 900)]);
    let x = balance_history_aggregated(&db, &text("A"), &text("X"), 0, PG_MAX_BIGINT);
    assert_eq!(days(&x), vec![(86_400, 1, 1), (259_200, 4, 4)]);
    let first = balance_history_aggregated(&db, &text("A"), &text("WAVES"), DAY, 2 * DAY - 1);
    assert_eq!(days(&first), vec![(86_400, 500, 700)]);
    let part = balance_history_aggregated(&db, &text("A"), &text("WAVES"), DAY + 1_000_001, 3 * DAY);
    assert_eq!(days(&part), vec![(86_400, 700, 700), (259_200, 900, 900)]);
    assert!(balance_history_aggregated(&db, &text("A"), &text("WAVES"), 3 * DAY + 1, PG_MAX_BIGINT).is_empty());
    assert!(balance_history_aggregated(&db, &text("nobody"), &text("WAVES"), 0, PG_MAX_BIGINT).is_empty());
    assert!(balance_history_aggregated(&db, &text("A"), &text("nothing"), 0, PG_MAX_BIGINT).is_empty());
}

#[test]
fn the_days_of_a_request_run_from_midnight_to_midnight() {
    let db = store();
    let list = bh_balance_aggregates(text("A"), text("WAVES"), &db, &params(&[])).unwrap();
    assert_eq!(days(&list.items), vec![(86_400, 500, 700), (259_200, 900, 900)]);
    assert!(!list.page_info.has_next_page);
    assert_eq!(list.page_info.last_cursor, None);

    let list = bh_balance_aggregates(
        text("A"),
        text("WAVES"),
        &db,
        &params(&[("date_from", "1970-01-02T23:00:00Z"), ("date_to", "1970-01-02T00:00:01Z")]),
    )
    .unwrap();
    assert_eq!(days(&list.items), vec![(86_400, 500, 700)]);

    let list = bh_balance_aggregates(text("A"), text("WAVES"), &db, &params(&[("date_from", "1970-01-03T00:00:00Z")])).unwrap();
    assert_eq!(days(&list.items), vec![(259_200, 900, 900)]);
    // the milliseconds of the moment stay: the third day starts too late
    let list = bh_balance_aggregates(text("A"), text("WAVES"), &db, &params(&[("date_from", "1970-01-04T12:00:00.001Z")])).unwrap();
    assert!(list.items.is_empty());
    let list = bh_balance_aggregates(text("A"), text("WAVES"), &db, &params(&[("date_to", "1970-01-01T12:00:00Z")])).unwrap();
    assert!(list.items.is_empty());

    match bh_balance_aggregates(text("A"), text("WAVES"), &db, &params(&[("date_from", "x"), ("date_to", "y")])) {
        Err(AppError::InvalidQueryString(m)) => assert_eq!(m, "date_from "),
        _ => panic!("the date is refused"),
    }
    match bh_balance_aggregates(text("A"), text("WAVES"), &db, &params(&[("date_to", "2020-13-01T00:00:00Z")])) {
        Err(AppError::InvalidQueryString(m)) => assert_eq!(m, "date_to "),
        _ => panic!("the date is refused"),
    }
}

#[test]
fn errors_are_answered_by_their_kind() {
    match error_reply(AppError::ValidationErrorCustom(text("too big"))) {
        ErrorReply::InvalidParameter(Some(d)) => assert_eq!(d, vec![(text("height"), text("too big"))]),
        _ => panic!("a refused value is an invalid parameter"),
    }
    let details = vec![(text("a"), text("b")), (text("c"), text("d"))];
    match error_reply(AppError::ValidationError(text("m"), Some(details.clone()))) {
        ErrorReply::InvalidParameter(Some(d)) => assert_eq!(d, details),
        _ => panic!("a refused parameter is an invalid parameter"),
    }
    assert!(matches!(error_reply(AppError::ValidationError(text("m"), None)), ErrorReply::InvalidParameter(None)));
    assert!(matches!(error_reply(AppError::InvalidQueryString(text("q"))), ErrorReply::InvalidParameter(None)));
    assert!(matches!(
        error_reply(AppError::DbError(text("canceling statement due to statement timeout"))),
        ErrorReply::Timeout
    ));
    assert!(matches!(error_reply(AppError::DbError(text("connection refused"))), ErrorReply::Internal));
    assert_eq!(ErrorReply::InvalidParameter(None).status(), 400);
    assert_eq!(ErrorReply::Timeout.status(), 504);
    assert_eq!(ErrorReply::Internal.status(), 500);
}
