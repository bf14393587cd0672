[package]
name = "canvas_dump"
version = "0.1.0"
edition = "2021"
publish = false

[dependencies]
chrono = "0.4"
filenamify = "0.1"
regex = "1"
serde = { version = "1", features = ["derive"] }
serde_json = "1"
reqwest = { version = "0.12", default-features = false, features = ["rustls-tls"] }
tokio = { version = "1", features = ["full"] }
lazy_static = "1"
maplit = "1"
fstrings = "0.2"
mslnk = "0.1"
