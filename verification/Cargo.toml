[package]
name = "cpr"
version = "0.1.0"
edition = "2021"
publish = false

[dependencies]
base16ct = { version = "=1.0.0", features = ["alloc"] }
base64ct = { version = "=1.8.3", features = ["alloc"] }
chrono = "=0.4.45"
crossterm = "=0.29.0"
glob = "=0.3.4"
md-5 = "=0.11.0"
reqwest = { version = "=0.13.5", default-features = false, features = ["blocking", "json"] }
serde = { version = "=1.0.229", features = ["derive"] }
serde_json = "=1.0.151"
subprocess = "=0.2.15"
threadpool = "=1.8.1"
