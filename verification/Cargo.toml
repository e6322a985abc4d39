[package]
name = "revproxy"
version = "0.1.0"
edition = "2021"
publish = false

[dependencies]
serde_json = "*"
rand = "*"
mio = { version = "*", features = ["os-poll", "net"] }
