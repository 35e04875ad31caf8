[package]
name = "dataflow_core"
version = "0.1.0"
edition = "2021"
publish = false

[dependencies]
anyhow = "*"
jsonb = "*"
serde = { version = "*", features = ["derive"] }
sqlparser = "*"
thiserror = "*"
url = "*"
uuid = "*"
