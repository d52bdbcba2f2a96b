[package]
name = "legit"
version = "0.1.0"
edition = "2021"
publish = false

[dependencies]
anyhow = "1"
clap = { version = "4", features = ["derive"] }
config = { version = "0.15", default-features = false, features = ["toml", "ini"] }
flate2 = "1"
serde = { version = "1", features = ["derive"] }
sha1 = "0.10"
toml = "0.8"
