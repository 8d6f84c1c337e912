[package]
name = "rustc_auto_publish"
version = "0.1.0"
edition = "2021"
publish = false

[dependencies]
toml = "*"
semver = "*"
serde = { version = "*", features = ["derive"] }
serde_json = "*"
curl = "*"
tar = "*"
flate2 = "*"
tempdir = "*"
