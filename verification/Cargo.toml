[package]
name = "observatory"
version = "0.1.0"
edition = "2021"
publish = false

[dependencies]
tokio = { version = "=1.54.1", default-features = false, features = ["sync"] }
sha2 = "=0.10.9"
serde_json = "=1.0.154"
chrono = { version = "0.4", default-features = false, features = ["alloc"] }
