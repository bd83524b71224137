[package]
name = "grib2sail"
version = "0.7.2"
edition = "2021"
publish = false

[dependencies]
rust-aec = "=0.1.1"
regex = "=1.13.1"
chrono = { version = "=0.4.45", default-features = false, features = ["clock", "std"] }
reqwest = { version = "=0.12.28", default-features = false, features = ["json", "rustls-tls"] }
tokio = { version = "=1.54.1", features = ["rt-multi-thread", "macros", "sync", "time"] }
clap = { version = "=4.6.7", features = ["derive"] }
log = "=0.4.35"
serde = { version = "=1.0.229", features = ["derive"] }
serde_json = "=1.0.154"
thiserror = "=2.0.21"
indicatif = "=0.17.11"
colored = "=2.2.0"
once_cell = "=1.21.4"
keyring = { version = "=3.6.3", features = ["linux-native"] }
self_update = { version = "=0.42.0", default-features = false, features = ["archive-tar", "compression-flate2", "rustls"] }
