[package]
name = "tembo"
version = "0.1.0"
edition = "2021"
publish = false

[dependencies]
anyhow = "*"
chrono = "*"
clap = "*"
clap_complete = "*"
dateparser = "*"
home = "*"
jwt = "*"
serde = { version = "*", features = ["derive"] }
serde_yaml = "*"
simplelog = "*"
spinners = "*"
tera = "*"
toml = "*"
