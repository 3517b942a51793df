[package]
name = "namenode"
version = "0.1.0"
edition = "2021"
publish = false

[dependencies]
bincode = "1"
prost = { version = "0.13", features = ["derive"] }
serde = { version = "1", features = ["derive"] }
