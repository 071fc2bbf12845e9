[package]
name = "zonecfg_backup"
version = "0.1.0"
edition = "2021"
publish = false

[dependencies]
anyhow = "1"
chrono = { version = "0.4", default-features = false, features = ["clock"] }
serde = { version = "1", features = ["derive"] }
sha2 = "0.10"
slog = "2"
slog-term = "2"
tar = { version = "0.4", default-features = false }
tempfile = "3"
toml = "0.5"
zstd = "0.13"
