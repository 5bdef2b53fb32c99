[package]
name = "smartzip"
version = "0.1.0"
edition = "2021"
publish = false

[dependencies]
async-trait = "0.1"
blake3 = "=1.8.7"
chardetng = "0.1"
encoding_rs = "=0.8.44"
futures-util = "0.3"
infer = "=0.22.0"
libc = "0.2"
rusqlite = { version = "*", features = ["bundled"] }
rusqlite_migration = "*"
serde = { version = "1", features = ["derive"] }
serde_json = "1"
sha2 = "=0.11.1"
thiserror = "*"
tokio = { version = "1", features = ["full"] }
tokio-util = "0.7"
uuid = { version = "1", features = ["v4"] }
walkdir = "2"
zip = { version = "*", default-features = false, features = ["deflate"] }

[dev-dependencies]
tempfile = "3"
