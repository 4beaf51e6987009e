[package]
name = "site_harvest"
version = "0.1.0"
edition = "2021"
publish = false

[dependencies]
url = "=2.5.8"
serde = { version = "=1.0.229", features = ["derive"] }
serde_yaml = "=0.9.34"
log = "=0.4.34"
env_logger = "=0.11.11"
tokio = { version = "=1.54.1", features = ["rt-multi-thread", "macros", "time", "fs"] }
futures = "=0.3.34"
spider = { version = "=2.53.9", default-features = false }
chromiumoxide = { version = "=0.8.0", default-features = false, features = ["tokio-runtime", "bytes", "_fetcher-rustls-tokio"] }

[dev-dependencies]
tempfile = "=3.27.0"
