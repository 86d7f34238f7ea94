[package]
name = "flowstation"
version = "0.1.0"
edition = "2021"
publish = false

[dependencies]
bitcode = "0.6"
rand = "0.9"
serde = { version = "1", features = ["derive"] }
toml = "0.8"
tracing = "0.1"
