[package]
name = "nevy_prediction"
version = "0.1.0"
edition = "2021"
publish = false

[dependencies]
bevy = { version = "=0.19.1", default-features = false, features = ["std"] }
nevy = "=0.5.1"
serde = { version = "=1.0.229", features = ["derive"] }
log = "=0.4.34"
quinn-proto = "=0.11.19"
rustls = { version = "=0.23.46", default-features = false, features = ["ring", "std"] }
rcgen = "=0.13.2"
