[package]
name = "rust_croc"
version = "0.1.0"
edition = "2021"
publish = false

[dependencies]
aes-gcm = "0.10"
anyhow = "1"
byteorder = "1"
chrono = "0.4"
clap = { version = "4", features = ["derive"] }
default-net = "*"
hex = "0.4"
inquire = "*"
log = "0.4"
num-bigint-dig = "0.8"
num-traits = "0.2"
once_cell = "1"
pbkdf2 = "0.12"
pretty_env_logger = "0.5"
rand = "0.8"
serde = { version = "1", features = ["derive"] }
serde_json = { version = "1", features = ["arbitrary_precision"] }
serde_repr = "0.1"
serde_with = "3"
sha2 = "0.10"
thiserror = "1"
tokio = { version = "1", features = ["full"] }
