[package]
name = "calib"
version = "0.1.0"
edition = "2021"
publish = false

[dependencies]
uuid = { version = "=1.27.0", features = ["v4"] }
chrono = "=0.4.45"

[dev-dependencies]
serde_json = "=1.0.151"
