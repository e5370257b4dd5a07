[package]
name = "hybrid_mount"
version = "0.1.0"
edition = "2021"
publish = false

[dependencies]
anyhow = "1"
clap = { version = "4", features = ["derive"] }
serde = { version = "1", features = ["derive"] }
serde_json = "1"
toml = "0.8"
libc = "0.2"
walkdir = "2"
glob = "0.3"
rustix = { version = "1", features = ["fs", "mount"] }
