[package]
name = "portls"
version = "0.1.0"
edition = "2021"
publish = false

[dependencies]
regex = "*"
anyhow = "*"
serde = { version = "*", features = ["derive"] }
serde_json = "*"
chrono = "*"
dirs = "*"
rusqlite = { version = "*", features = ["bundled"] }
nix = { version = "*", features = ["signal"] }
