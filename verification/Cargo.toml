[package]
name = "vaultsync"
version = "0.1.0"
edition = "2021"
publish = false

[dependencies]
aes-gcm = "0.10"
argon2 = "0.5"
ed25519-dalek = "2"
fastcdc = "3"
hmac = "0.12"
keyring = "3"
rand = "0.8"
serde = { version = "1", features = ["derive"] }
serde_json = "1"
sha2 = "0.10"
snow = "0.9"
x25519-dalek = { version = "2", features = ["static_secrets"] }
zeroize = "1"
