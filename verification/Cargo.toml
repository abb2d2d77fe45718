[package]
name = "suiup"
version = "0.0.10"
edition = "2021"
publish = false

[dependencies]
anyhow = "=1.0.104"
clap = { version = "=4.6.7", features = ["derive", "env"] }
comfy-table = "=7.2.2"
env_logger = "=0.11.11"
flate2 = "=1.1.10"
futures-util = "=0.3.34"
indicatif = "=0.17.11"
md5 = "0.8"
reqwest = { version = "=0.12.28", default-features = false, features = ["json", "stream", "rustls-tls"] }
serde = { version = "=1.0.229", features = ["derive"] }
serde_json = "=1.0.154"
tar = "=0.4.46"
tempfile = "=3.27.0"
tokio = { version = "=1.54.1", features = ["rt-multi-thread", "macros"] }
toml = "=0.8.23"
tracing = "=0.1.44"
whoami = "2"
zip = { version = "=2.6.1", default-features = false, features = ["deflate"] }
