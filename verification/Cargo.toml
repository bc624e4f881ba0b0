[package]
name = "view_store"
version = "0.1.0"
edition = "2021"
publish = false

[dependencies]
futures = "=0.3.34"
log = "=0.4.34"
parking_lot = "=0.12.5"
sc-transaction-pool-api = "=48.0.0"
sp-blockchain = "=47.0.0"
sp-runtime = "=49.0.0"
thiserror = "=1.0.69"
