[package]
name = "local_activities"
version = "0.1.0"
edition = "2021"
publish = false

[dependencies]
tokio = { version = "1", features = ["sync", "time", "rt", "macros"] }
tokio-util = "0.7"
parking_lot = "0.12"
prost-types = "0.13"
