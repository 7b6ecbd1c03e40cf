[package]
name = "tethera_server"
version = "0.1.0"
edition = "2021"
publish = false

[dependencies]
sha2 = "0.10"
chrono = { version = "0.4", default-features = false, features = ["std"] }
unicode-width = "0.2"
vte = "*"
serde = { version = "1", features = ["derive"] }
serde_json = "1"
anyhow = "1"
crossterm = "*"
portable-pty = "*"
tokio = { version = "1", features = ["time", "sync", "rt", "macros", "io-util", "net"] }
moka = { version = "*", features = ["sync"] }
postcard = { version = "1", features = ["use-std"] }
