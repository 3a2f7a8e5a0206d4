[package]
name = "ruskynet"
version = "0.1.0"
edition = "2021"
publish = false

[dependencies]
lazy_static = "=1.5.1"
libc = "=0.2.191"
mio = { version = "=0.8.11", features = ["os-poll", "os-ext", "net"] }
mlua = { version = "=0.10.5", features = ["lua54", "vendored", "serialize", "send"] }
serde_json = "=1.0.154"
