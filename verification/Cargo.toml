[package]
name = "flow_rs"
version = "0.1.0"
edition = "2021"
publish = false

[dependencies]
serde = { version = "*", features = ["derive"] }
serde_json = "*"
rand = "*"
tokio = { version = "*", features = ["full"] }
futures = "*"
ws = "*"
