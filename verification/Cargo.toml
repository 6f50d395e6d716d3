[package]
name = "cargo_onefile"
version = "0.1.0"
edition = "2021"
publish = false

[dependencies]
anyhow = "=1.0.104"
cargo_toml = "=1.0.1"
chrono = "=0.4.45"
clap = { version = "=4.6.7", features = ["derive"] }
clap-cargo = "=0.19.0"
ignore = "=0.4.33"
rayon = "=1.12.0"
toml = "=1.1.7"
