[package]
name = "leafcore"
version = "0.1.0"
edition = "2021"
publish = false

[dependencies]
lru = { version = "=0.18.5", default-features = false }
lru_time_cache = "=0.11.11"
rand = "=0.10.3"
tokio = { version = "1", features = ["rt", "rt-multi-thread", "net", "time", "sync", "io-util", "macros"] }
futures = "0.3"
serde_json = "*"
reqwest = { version = "*", default-features = false, features = ["json"] }
hyper = { version = "0.14", features = ["server", "http1"] }
async-trait = "*"
