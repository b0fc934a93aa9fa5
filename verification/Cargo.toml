[package]
name = "newkitine"
version = "0.1.0"
edition = "2021"
publish = false

[dependencies]
flate2 = "1"
md5 = "0.7"
libc = "0.2"
lofty = "*"
serde = { version = "1", features = ["derive"] }
serde_json = "1"
thiserror = "*"
tokio = { version = "1", features = ["full"] }
tracing = "0.1"
tracing-subscriber = { version = "0.3", features = ["env-filter"] }
