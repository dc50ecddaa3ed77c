[package]
name = "utxo_ledger"
version = "0.1.0"
edition = "2021"
publish = false

[dependencies]
sha2 = "0.10"
serde = { version = "1", features = ["derive"] }
mongodb = "2"
tokio = { version = "1", features = ["macros", "rt-multi-thread"] }
futures = "0.3"
