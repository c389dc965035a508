[package]
name = "repolocli"
version = "0.1.0"
edition = "2021"
publish = false

[dependencies]
semver = "1"
curl = "0.4"
clap = "4"
prettytable-rs = "0.10"
serde = { version = "1", features = ["derive"] }
toml = "0.8"
url = "2"
xdg = "2"
