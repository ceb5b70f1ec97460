[package]
name = "ops_crdt_rust"
version = "0.1.0"
edition = "2021"
publish = false

[dependencies]
dotenvy = "0.15"
rand = "0.8"
serde = { version = "1", features = ["derive"] }
