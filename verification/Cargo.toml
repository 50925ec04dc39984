[package]
name = "dearboard"
version = "0.1.0"
edition = "2021"
publish = false

[dependencies]
serde = { version = "=1.0.229", features = ["derive"] }
serde_json = "=1.0.151"
rand = "=0.9.5"
uuid = { version = "=1.27.0", features = ["v4"] }
chrono = "=0.4.45"
alloy-primitives = { version = "=1.7.3", features = ["k256"] }
hex = "=0.4.3"
jsonwebtoken = "=11.1.0"
rusqlite = { version = "=0.40.2", features = ["bundled"] }
alloy-sol-types = "=1.7.3"
