[package]
name = "dag_ledger"
version = "0.1.0"
edition = "2021"
publish = false

[dependencies]
blake3 = "*"
sled = "*"
lru = "*"
serde_json = "*"

[dev-dependencies]
tempfile = "*"
