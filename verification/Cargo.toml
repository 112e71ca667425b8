[package]
name = "rdns"
version = "0.1.0"
edition = "2021"
publish = false

[dependencies]
anyhow = "=1.0.104"
async-trait = "=0.1.92"
clap = { version = "=4.6.7", features = ["derive", "env"] }
flate2 = "=1.1.10"
futures-util = "=0.3.34"
reqwest = { version = "=0.12.28", default-features = false, features = ["json", "stream", "rustls-tls"] }
serde = { version = "=1.0.229", features = ["derive"] }
tokio = { version = "=1.53.2", features = ["rt-multi-thread", "macros", "net", "signal", "time", "sync", "io-util"] }
tokio-util = { version = "=0.7.19", features = ["io"] }
tracing = "=0.1.44"
tracing-subscriber = "=0.3.23"
trust-dns-server = { version = "=0.23.2", features = ["resolver", "dns-over-rustls", "dns-over-https-rustls"] }
url = "=2.5.8"

[dev-dependencies]
fnv = "=1.0.7"
