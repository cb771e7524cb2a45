[package]
name = "vpn_detector"
version = "0.1.0"
edition = "2021"
publish = false

[dependencies]
cidr-utils = "=0.6.2"
lru = "=0.18.5"
thiserror = "=2.0.21"
csv = "=1.4.0"
serde = { version = "=1.0.229", features = ["derive"] }
figment = { version = "=0.10.19", features = ["toml", "env"] }
validator = { version = "=0.21.0", features = ["derive"] }
tokio = { version = "=1.53.2", features = ["rt-multi-thread", "macros", "sync", "time"] }
trust-dns-resolver = "=0.23.2"
pnet = "=0.35.0"
