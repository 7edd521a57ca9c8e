[package]
name = "arcnet"
version = "0.1.0"
edition = "2021"
publish = false

[dependencies]
sha256 = { version = "1", default-features = false }
hex = "0.4"
ciborium = "0.2"
serde = { version = "1", features = ["derive"] }
uuid = { version = "1", features = ["v4", "serde"] }
chrono = { version = "0.4", features = ["serde"] }
k256 = { version = "0.13", features = ["ecdsa", "serde", "pem"] }
ecdsa = { version = "0.16", features = ["serde", "der", "signing", "verifying", "pem"] }
rand = "0.8"
bigdecimal = "0.4"
uint = "0.10"
tokio = { version = "1", features = ["full"] }
anyhow = "1"
thiserror = "1"
clap = { version = "4", features = ["derive"] }
argh = "*"
dashmap = "6"
static_init = "*"
toml = "0.8"
tracing = "0.1"
tracing-subscriber = { version = "0.3", features = ["env-filter"] }
tracing-appender = "0.2"
cursive = { version = "0.21", default-features = false, features = ["crossterm-backend"] }
kanal = "*"
flume = "0.11"
crossbeam-skiplist = "0.1"
text-to-ascii-art = "*"
