[package]
name = "sstp"
version = "0.1.0"
edition = "2021"
publish = false

[dependencies]
bytesize = "=1.3.3"
clap = "=2.34.0"
dialoguer = "=0.10.4"
indicatif = "=0.17.11"
parity-wordlist = "=1.3.1"
serde = { version = "=1.0.229", features = ["derive"] }
serde_json = "=1.0.154"
soketto = "=0.7.1"
tokio = { version = "=1.54.1", features = ["full"] }
tokio-stream = { version = "=0.1.19", features = ["net"] }
tokio-util = { version = "=0.7.20", features = ["compat"] }
