[package]
name = "zenoh_envelope"
version = "0.1.0"
edition = "2021"
publish = false

[dependencies]
zenoh-keyexpr = "=0.11.0"
zenoh-util = "=0.11.0"
uhlc = "=0.9.0"
serde = { version = "1", features = ["derive"] }
