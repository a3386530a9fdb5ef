[package]
name = "starstream_interleaving"
version = "0.1.0"
edition = "2021"
publish = false

[dependencies]
p3-field = "0.4.3"
p3-goldilocks = "0.4.3"
serde = { version = "1", features = ["derive"] }
serde_json = "1"
tempfile = "3"
thiserror = "2"
