[package]
name = "strata_db"
version = "0.1.0"
edition = "2021"
publish = false

[dependencies]
chrono = "0.4"
crc32fast = "1"
rust_decimal = "1"
serde = { version = "1", features = ["derive"] }
serde_json = "1"
sqlparser = "*"
sysinfo = "*"
thiserror = "2"
tracing = "0.1"
uuid = { version = "1", features = ["v7", "serde"] }
xxhash-rust = { version = "0.8", features = ["xxh3"] }
