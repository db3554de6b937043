[package]
name = "lindy_videos"
version = "0.1.0"
edition = "2021"
publish = false

[dependencies]
aes-gcm = "0.10"
anyhow = "1"
base16ct = { version = "0.2", features = ["alloc"] }
clap = { version = "4", features = ["derive"] }
dotenvy = "0.15"
env_logger = "0.11"
envy = "0.4"
handlebars = "*"
itertools = "0.13"
log = "0.4"
pbkdf2 = "0.12"
regex = "1"
rust-embed = "8"
serde = { version = "1", features = ["derive"] }
serde_json = "1"
sha2 = "0.10"
unidecode = "0.3"
users = "0.11"
