[package]
name = "epoch_reclaim"
version = "0.1.0"
edition = "2021"
publish = false

[dependencies]
array-init = "2"
once_cell = "1"
crossbeam-epoch = "0.9"
parking_lot = "0.12"
tokio = { version = "1", features = ["rt-multi-thread", "sync", "macros", "time"] }
