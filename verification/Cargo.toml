[package]
name = "dnsrelay"
version = "0.1.0"
edition = "2021"
publish = false

[dependencies]
ipnet = "2"
hickory-proto = "0.24"
hickory-resolver = { version = "0.24", features = ["dns-over-rustls", "dns-over-https-rustls"] }
hickory-server = "0.24"
regex = "1"
tokio = { version = "1", features = ["rt-multi-thread", "net", "time", "macros", "signal"] }
async-trait = "0.1"
crossbeam-channel = "0.5"
serde = { version = "1", features = ["derive"] }
toml = "0.8"
thiserror = "1"
