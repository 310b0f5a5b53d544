[package]
name = "brickrail"
version = "0.1.0"
edition = "2021"
publish = false

[dependencies]
petgraph = "*"
sha2 = "*"
rand = "*"
serde = { version = "*", features = ["derive"] }
serde_json = "*"
