[package]
name = "lowestbins"
version = "0.1.0"
edition = "2021"
publish = false

[dependencies]
base64 = "*"
convert_case = "*"
dashmap = "*"
futures = "*"
hematite-nbt = "*"
hyper = { version = "0.14", features = ["full"] }
reqwest = { version = "*", default-features = false, features = ["gzip", "brotli"] }
serde = { version = "*", features = ["derive"] }
serde_json = "*"
tokio = { version = "*", features = ["full"] }
