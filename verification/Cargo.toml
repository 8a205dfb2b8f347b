[package]
name = "traintime"
version = "0.1.0"
edition = "2021"
publish = false

[dependencies]
gtfs_rt_decode = "*"
prost = "*"
zip = "*"
csv = "1"
serde = { version = "1", features = ["derive"] }
serde_norway = "*"
tokio = { version = "1", features = ["rt-multi-thread", "macros", "sync", "time"] }
reqwest = { version = "0.12", default-features = false, features = ["rustls-tls"] }
futures = "0.3"
log = "0.4"
colog = "*"
