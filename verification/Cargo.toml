[package]
name = "pevm"
version = "0.1.0"
edition = "2021"
publish = false

[dependencies]
alloy-primitives = "=1.7.3"
dashmap = "=6.2.1"
hashbrown = "*"
rustc-hash = "=2.1.3"
serde = { version = "=1.0.229", features = ["derive"] }
