[package]
name = "torrent"
version = "0.1.0"
edition = "2021"
publish = false

[dependencies]
serde_bencode = "0.2"
sha1_smol = "1"
hex = "0.4"
rand = "0.8"
serde = { version = "1", features = ["derive"] }
serde_urlencoded = "0.7"
reqwest = { version = "0.12", default-features = false, features = ["blocking"] }
clap = { version = "4", features = ["derive"] }
crossterm = "0.28"
ratatui = "0.29"
strum = { version = "0.26", features = ["derive"] }
dirs = "5"
thiserror = "1"
