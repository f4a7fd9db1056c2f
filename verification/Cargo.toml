[package]
name = "tidymoney"
version = "0.1.0"
edition = "2021"
publish = false

[dependencies]
anyhow = "=1.0.104"
chrono = "=0.4.45"
clap = { version = "=4.6.7", features = ["derive"] }
config-finder = "=0.1.2"
csv = "=1.4.0"
regex = "=1.13.1"
rust_decimal = "=1.43.0"
serde = { version = "=1.0.229", features = ["derive"] }
serde_json = "=1.0.151"
simple-expand-tilde = "=0.5.3"
toml = { version = "=1.1.7", features = ["preserve_order"] }
