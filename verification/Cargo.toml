[package]
name = "fsm_engine"
version = "0.1.0"
edition = "2021"
publish = false

[dependencies]
dot = "*"
uuid = { version = "*", features = ["v4"] }
