[package]
name = "bpfd"
version = "0.1.0"
edition = "2021"
publish = false

[dependencies]
sled = "0.34"
aya = "*"
tokio = { version = "1", features = ["rt-multi-thread", "sync", "macros"] }
anyhow = "1"
