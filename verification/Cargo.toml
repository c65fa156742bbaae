[package]
name = "rethink_driver"
version = "0.1.0"
edition = "2021"
publish = false

[dependencies]
base64 = "0.13"
hmac = "0.11"
sha2 = "0.9"
pbkdf2 = { version = "0.8", default-features = false }
rand = "0.8"
stringprep = "0.1"
serde = { version = "1", features = ["derive"] }
serde_json = "1"
serde_repr = "0.1"
log = "0.4"
smol = "1"
rustls = "0.19"
webpki = "0.21"
async-rustls = "0.2"
