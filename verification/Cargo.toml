[package]
name = "fabric_lib"
version = "0.1.0"
edition = "2021"
publish = false

[dependencies]
crossbeam-channel = "0.5"
dashmap = "6"
oneshot = "0.1"
parking_lot = "0.12"
thiserror = "2"
tokio = { version = "1", features = ["rt", "rt-multi-thread", "sync"] }
tracing = "0.1"
