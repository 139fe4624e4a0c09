[package]
name = "muscli"
version = "0.1.0"
edition = "2021"
publish = false

[dependencies]
unicode-normalization = "=0.1.26"
toml = "=1.1.8"
anyhow = "=1.0.104"
clap = { version = "=4.6.7", features = ["derive"] }
blake3 = "=1.8.7"
serde = { version = "=1.0.229", features = ["derive"] }
serde_json = "=1.0.154"
walkdir = "=2.5.0"
lofty = "=0.25.5"
directories = "=6.0.0"
rand = "=0.9.5"
rusqlite = { version = "=0.41.1", features = ["bundled"] }
image = { version = "0.25", default-features = false, features = ["png", "jpeg"] }
chrono = { version = "0.4", default-features = false, features = ["clock"] }
