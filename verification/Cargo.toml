[package]
name = "broadcast_node"
version = "0.1.0"
edition = "2021"
publish = false

[dependencies]
rand = "0.8"
serde = { version = "1", features = ["derive"] }
serde_json = "1"
crossbeam = "0.8"
color-eyre = "0.6"
