[package]
name = "tendermint"
version = "0.1.0"
edition = "2021"
publish = false

[dependencies]
parking_lot = "*"
rlp = { version = "=0.2.1", default-features = false }
unexpected = "0.1"
