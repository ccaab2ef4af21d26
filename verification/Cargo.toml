[package]
name = "balances"
version = "0.1.0"
edition = "2021"
publish = false

[dependencies]
bs58 = "=0.4.0"
sha3 = "=0.8.2"
blake2 = "=0.8.1"
bytes = "=1.12.1"
chrono = "=0.4.45"
rust_decimal = { version = "1", features = ["db-tokio-postgres"] }
serde = { version = "1", features = ["derive"] }
envy = "0.4"
anyhow = "1"
thiserror = "1"
futures = "0.3"
tokio = { version = "1", features = ["macros", "rt-multi-thread", "time", "sync"] }
tokio-postgres = { version = "0.7", features = ["with-chrono-0_4"] }
deadpool-postgres = "0.10"
warp = "0.3"
tonic = "0.12"
diesel = { version = "2", features = ["postgres"] }
diesel_migrations = "2"
