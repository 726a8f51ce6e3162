[package]
name = "misty-vm"
version = "0.1.0"
edition = "2021"
publish = false

[dependencies]
futures = "0.3"
once_cell = "1"
serde = { version = "1", features = ["derive"] }
tracing = "0.1"
