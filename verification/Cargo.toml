[package]
name = "jormungandr"
version = "0.1.0"
edition = "2021"
publish = false

[dependencies]
bech32 = "=0.12.0"
bincode = "=1.3.3"
serde = { version = "=1.0.229", features = ["derive"] }
structopt = "=0.3.26"
tokio = { version = "=1.54.1", default-features = false, features = ["sync"] }
slog = "=2.8.2"
slog-async = "=2.8.0"
slog-term = "=2.9.2"
slog-json = "=2.6.1"
slog-syslog = "*"
