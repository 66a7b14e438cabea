[package]
name = "rdvault"
version = "0.1.0"
edition = "2021"
publish = false

[dependencies]
aes-gcm = "=0.10.3"
arboard = { version = "3", default-features = false }
rand = "=0.8.8"
