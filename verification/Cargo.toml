[package]
name = "speardrive"
version = "0.1.0"
edition = "2021"
publish = false

[dependencies]
regex = "1"
sha2 = "0.10"
hex = "0.4"
hyper = { version = "0.14", features = ["full"] }
hyper-staticfile = "0.9"
tokio = { version = "1", features = ["full"] }
reqwest = "0.11"
gitlab = "*"
fs2 = "0.4"
serde = { version = "1", features = ["derive"] }
serde_yaml = "0.9"
toml = "0.5"
config = "0.13"
structopt = "0.3"
thiserror = "1"
flexi_logger = { version = "*", features = ["async"] }
log = "0.4"
chrono = "0.4"
ansi_term = "0.12"
dirs = "*"
derive_builder = "0.12"
