[package]
name = "raft_proto"
version = "0.1.0"
edition = "2021"
publish = false

[dependencies]
bytes = "*"
log = "*"
env_logger = "*"
tokio = { version = "*", features = ["net", "rt-multi-thread", "macros", "io-util"] }
