[package]
name = "wexplorer_indexing"
version = "0.1.0"
edition = "2021"
publish = false

[dependencies]
url = "2"
form_urlencoded = "1"
scraper = "0.19"
ego-tree = "0.6"
itertools = "0.12"
sea-query = { version = "0.30", default-features = false, features = ["backend-sqlite"] }
rusqlite = "0.30"
chrono = "0.4"
tokio = { version = "1", features = ["rt-multi-thread", "macros", "sync", "time"] }
tokio-util = "0.7"
reqwest = "0.11"
tonic = "0.10"
prost = "0.12"
tracing = "0.1"
