[package]
name = "rtc_signal"
version = "0.1.0"
edition = "2021"
publish = false

[dependencies]
rand = { version = "*", features = ["small_rng"] }
serde = { version = "*", features = ["derive"] }
serde_bare = "*"
web-time = "*"
worker = "*"
