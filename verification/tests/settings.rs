use balances::config::migration::{try_into, Action};
use balances::config::postgres::PostgresConfig;
use balances::db::statements::{
    block_placeholders, partition_statements, placeholders, snapshot_table, uid_list, value_rows,
    BULK_CHUNK_SIZE,
};
use balances::waves::bu::balance_updates::BalanceHistory;
use vstd::hash_map::StringHashMap;

fn text(s: &str) -> String {
    s.to_string()
}

fn postgres() -> PostgresConfig {
    PostgresConfig {
        host: text("db.local"),
        port: 5433,
        database: text("balances"),
        user: text("reader"),
        password: text("pw"),
        pool_size: 7,
        connection_timeout: 5,
        keepalives_idle: 0,
    }
}

#[test]
fn the_connection_is_described_in_one_line() {
    assert_eq!(
        postgres().connection_string(),
        "host=db.local user=reader password=pw port=5433 dbname=balances connect_timeout=5 keepalives_idle=0"
    );
    assert_eq!(postgres().database_url(), "postgres://reader:pw@db.local:5433/balances");
}

#[test]
fn the_consumer_holds_one_connection() {
    let flat = balances::config::consumer::ConfigFlat {
        metrics_port: balances::config::consumer::default_metrics_port(),
        pghost: text("h"),
        pgport: 1,
        pgdatabase: text("d"),
        pguser: text("u"),
        pgpassword: text("p"),
        pgconnection_timeout: 2,
        pgkeepalives_idle: 3,
        blockchain_updates_url: text("http://node"),
        blockchain_start_height: 4,
    };
    let config = balances::config::consumer::load(flat);
    assert_eq!(config.metrics_port, 9090);
    assert_eq!(config.blockchain_updates_url, "http://node");
    assert_eq!(config.blockchain_start_height, 4);
    assert_eq!(config.postgres.pool_size, 1);
    assert_eq!(config.postgres.host, "h");
    assert_eq!(config.postgres.port, 1);
    assert_eq!(config.postgres.database, "d");
    assert_eq!(config.postgres.user, "u");
    assert_eq!(config.postgres.password, "p");
    assert_eq!(config.postgres.connection_timeout, 2);
    assert_eq!(config.postgres.keepalives_idle, 3);
    assert!(config.test_changed.is_empty());
    let settings = balances::consumer::settings::Settings::init(config);
    assert_eq!(settings.config.blockchain_start_height, 4);
}

#[test]
fn the_service_and_the_migration_take_the_pool_size_as_given() {
    let config = balances::api::config::load(balances::api::config::ConfigFlat {
        port: 8080,
        metrics_port: balances::api::config::default_metrics_port(),
        pghost: text("h"),
        pgport: 1,
        pgdatabase: text("d"),
        pguser: text("u"),
        pgpassword: text("p"),
        pgpoolsize: 20,
        pgconnection_timeout: 2,
        pgkeepalives_idle: 3,
    });
    assert_eq!((config.port, config.metrics_port, config.postgres.pool_size), (8080, 9090, 20));
    let settings = balances::api::settings::Settings::init(config);
    assert_eq!(settings.config.postgres.database, "d");

    let config = balances::config::migration::load(balances::config::migration::ConfigFlat {
        pghost: text("h"),
        pgport: balances::config::migration::default_pgport(),
        pgdatabase: text("d"),
        pguser: text("u"),
        pgpassword: text("p"),
        pgpoolsize: balances::config::migration::default_pgpool(),
        pgconnection_timeout: 2,
        pgkeepalives_idle: 3,
    });
    assert_eq!((config.postgres.port, config.postgres.pool_size), (5432, 4));
    assert_eq!(config.postgres.keepalives_idle, 3);
}

#[test]
fn a_migration_goes_up_or_down() {
    assert_eq!(try_into(text("up")).ok(), Some(Action::Up));
    assert_eq!(try_into(text("down")).ok(), Some(Action::Down));
    for arg in ["", "Up", "up ", "sideways", "downn"] {
        match try_into(text(arg)) {
            Err(e) => assert_eq!(e.0, "cannot parse command line arg"),
            Ok(_) => panic!("{:?} names no action", arg),
        }
    }
}

#[test]
fn statements_get_their_lists() {
    assert_eq!(BULK_CHUNK_SIZE, 5000);
    assert_eq!(placeholders(0), "");
    assert_eq!(placeholders(1), "($1)");
    assert_eq!(placeholders(3), "($1),($2),($3)");
    assert!(placeholders(12).ends_with(",($11),($12)"));
    assert_eq!(block_placeholders(0), "");
    assert_eq!(block_placeholders(1), " ($1,$2,$3)");
    assert_eq!(block_placeholders(2), " ($1,$2,$3), ($4,$5,$6)");
    assert_eq!(uid_list(&vec![]), "");
    assert_eq!(uid_list(&vec![5]), "5");
    assert_eq!(uid_list(&vec![5, -6, 70]), "5,-6,70");
    assert_eq!(snapshot_table("asset_distribution", 12, 3400), "asset_distribution.task_uid_12_3400");
}

#[test]
fn entries_become_rows_of_values() {
    let entries: Vec<BalanceHistory> = [("a", "X", 10i64, 4i64), ("b", "", -2, 5), ("a", "WAVES", 0, 6)]
        .iter()
        .map(|(address, asset, amount, block)| BalanceHistory {
            block_uid: *block,
            address: text(address),
            asset_id: text(asset),
            amount: *amount,
            block_height: 1,
        })
        .collect();
    let mut assets = StringHashMap::new();
    assets.insert(text(""), 1);
    assets.insert(text("WAVES"), 1);
    assets.insert(text("X"), 2);
    let mut addresses = StringHashMap::new();
    addresses.insert(text("a"), 31);
    addresses.insert(text("b"), 32);
    assert_eq!(value_rows(&entries, 0, 3, &assets, &addresses), " (1,4,10,31,2), (2,5,-2,32,1), (3,6,0,31,1)");
    assert_eq!(value_rows(&entries, 1, 3, &assets, &addresses), " (1,5,-2,32,1), (2,6,0,31,1)");
    assert_eq!(value_rows(&entries, 2, 2, &assets, &addresses), "");
}

#[test]
fn the_history_is_partitioned_by_address_and_asset() {
    let statements = partition_statements();
    assert_eq!(statements.len(), 36 * 38);
    assert_eq!(
        statements[0],
        "CREATE TABLE balance_history_address_A PARTITION OF balance_history FOR VALUES IN('A') partition by LIST (part_asset_id);"
    );
    assert_eq!(
        statements[1],
        "CREATE TABLE balance_history_address_A_asset_WAVES PARTITION OF balance_history_address_A FOR VALUES IN('#');"
    );
    assert_eq!(
        statements[2],
        "CREATE TABLE balance_history_address_A_asset_0 PARTITION OF balance_history_address_A FOR VALUES IN('0');"
    );
    assert_eq!(
        statements[11],
        "CREATE TABLE balance_history_address_A_asset_9 PARTITION OF balance_history_address_A FOR VALUES IN('9');"
    );
    assert_eq!(
        statements[12],
        "CREATE TABLE balance_history_address_A_asset_A PARTITION OF balance_history_address_A FOR VALUES IN('A');"
    );
    assert_eq!(
        statements[37],
        "CREATE TABLE balance_history_address_A_asset_Z PARTITION OF balance_history_address_A FOR VALUES IN('Z');"
    );
    assert_eq!(
        statements[38],
        "CREATE TABLE balance_history_address_B PARTITION OF balance_history FOR VALUES IN('B') partition by LIST (part_asset_id);"
    );
    assert_eq!(
        statements[26 * 38],
        "CREATE TABLE balance_history_address_0 PARTITION OF balance_history FOR VALUES IN('0') partition by LIST (part_asset_id);"
    );
    assert_eq!(
        statements[36 * 38 - 1],
        "CREATE TABLE balance_history_address_9_asset_Z PARTITION OF balance_history_address_9 FOR VALUES IN('Z');"
    );
}
