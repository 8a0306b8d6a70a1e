[package]
name = "vector_collection"
version = "0.1.0"
edition = "2021"
publish = false

[dependencies]
serde = { version = "*", features = ["derive"] }
serde_json = "*"
bincode = "1"
atomicwrites = "*"
schemars = "*"
thiserror = "*"
uuid = { version = "*", features = ["v4"] }
wal = "*"
crossbeam-channel = "*"
tokio = { version = "*", features = ["rt"] }
