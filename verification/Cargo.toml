[package]
name = "nm_mailmover"
version = "0.1.0"
edition = "2021"
publish = false

[dependencies]
uuid = { version = "1", features = ["v4"] }
konst = "0.3"
anyhow = "1"
clap = { version = "4", features = ["derive", "cargo"] }
directories = "5"
env_logger = "0.11"
log = "0.4"
mlua = { version = "0.10", features = ["lua54", "vendored", "serialize"] }
notmuch = "0.8"
serde = { version = "1", features = ["derive"] }
serde_yml = "0.0.12"
serde_yaml = "0.9"
shellexpand = "3"
git-version = "0.3"
