[package]
name = "dm_solution"
version = "0.1.0"
edition = "2021"
publish = false

[dependencies]
minilp = "0.2"
highs = "1"
rand = "0.9"
serde = { version = "1", features = ["derive"] }
serde_json = "1"
