[package]
name = "tracking"
version = "0.1.0"
edition = "2021"
publish = false

[dependencies]
chrono = "*"
predict-rs = "*"
serde = { version = "*", features = ["derive"] }
sgp4 = "*"
