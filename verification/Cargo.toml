[package]
name = "ws_rpc"
version = "0.1.0"
edition = "2021"
publish = false

[dependencies]
convert_case = "0.6"
rand = "0.8"
serde = { version = "1", features = ["derive"] }
serde_json = "1"
syn = { version = "1", features = ["full"] }
quote = "1"
proc-macro2 = "1"
tokio = { version = "1", features = ["rt", "rt-multi-thread", "macros", "sync", "io-std", "io-util"] }
ws = "0.9"
