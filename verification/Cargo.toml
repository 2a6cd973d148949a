[package]
name = "caliber"
version = "0.1.0"
edition = "2021"
publish = false

[dependencies]
chrono = { version = "=0.4.45", default-features = false, features = ["clock", "std"] }
unicode-width = "=0.2.2"
dirs = "=7.0.0"
serde = { version = "=1.0.229", features = ["derive"] }
toml = "=1.1.8"
toml_edit = "*"

[dev-dependencies]
regex = "=1.13.1"
