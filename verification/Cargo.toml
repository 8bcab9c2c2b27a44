[package]
name = "backlog_breakdown"
version = "0.1.0"
edition = "2021"
publish = false

[dependencies]
bevy = { version = "0.12", default-features = false }
bevy_rand = { version = "0.4", features = ["rand_chacha"] }
rand_core = "0.6"
