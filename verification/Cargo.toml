[package]
name = "znet"
version = "0.1.0"
edition = "2021"
publish = false

[dependencies]
indexmap = "2.14.2"
parking_lot = "0.12"
flume = "0.11"
tokio = { version = "1", features = ["rt-multi-thread", "macros", "sync", "time"] }
zenoh = { version = "1", default-features = false, features = ["transport_tcp"] }
clap = { version = "4", default-features = false, features = ["derive", "std"] }
serde = { version = "1", features = ["derive"] }
tracing = "0.1"
