[package]
name = "skycache"
version = "0.1.0"
edition = "2021"
publish = false

[dependencies]
futures = { version = "=0.3.34", features = ["thread-pool"] }
rand = "=0.8.8"
