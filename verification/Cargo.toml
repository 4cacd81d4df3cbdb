[package]
name = "flickr-cli"
version = "0.1.0"
edition = "2021"
publish = false

[dependencies]
anyhow = "1"
base64 = "0.22"
clap = { version = "4", features = ["derive"] }
dirs = "6"
hmac = "0.12"
image = { version = "0.25", default-features = false, features = ["jpeg", "png", "webp"] }
image_hasher = "*"
indicatif = "0.17"
keyring = "3"
open = "5"
percent-encoding = "2"
rand = "0.9"
rapidfuzz = "0.5"
reqwest = { version = "0.12", default-features = false, features = ["json", "rustls-tls"] }
serde = { version = "1", features = ["derive"] }
serde_json = "1"
sha1 = "0.10"
thiserror = "2"
tokio = { version = "1", features = ["full"] }
