[package]
name = "cdn_sync"
version = "0.1.0"
edition = "2021"
publish = false

[dependencies]
blake3 = "1"
colored = "*"
futures = "0.3"
indicatif = "*"
mslnk = "*"
once_cell = "1"
rand = "*"
reqwest = { version = "0.12", features = ["stream"] }
serde = { version = "1", features = ["derive"] }
serde_json = "1"
simple-log = "*"
steamlocate = "*"
tokio = { version = "1", features = ["rt-multi-thread", "macros", "fs", "io-util"] }
