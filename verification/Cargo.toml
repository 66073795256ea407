[package]
name = "tla_instrumentation"
version = "0.1.0"
edition = "2021"
publish = false

[dependencies]
candid = "*"
serde = { version = "*", features = ["derive"] }
