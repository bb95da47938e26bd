[package]
name = "basalto"
version = "0.1.0"
edition = "2021"
publish = false

[dependencies]
blake3 = "=1.8.7"
sha2 = "=0.10.9"
hex = "=0.4.3"
libc = "=0.2.191"
serde = { version = "=1.0.229", features = ["derive"] }
serde_json = "=1.0.154"
redis = { version = "=1.8.1", features = ["r2d2"] }
r2d2 = "=0.8.10"
libloading = "=0.8.9"
dashmap = "=6.2.1"
tokio = { version = "=1.54.1", features = ["rt", "rt-multi-thread", "sync", "time", "macros"] }
dirs = "=7.0.0"
dotenvy = "=0.15.7"
sysinfo = "=0.40.1"
thiserror = "=2.0.21"
anyhow = "=1.0.104"
reqwest = { version = "=0.12.28", default-features = false, features = ["blocking", "json", "rustls-tls"] }
pyo3 = "=0.30.1"
inkwell = { version = "0.5", features = ["llvm14-0-prefer-dynamic"] }
