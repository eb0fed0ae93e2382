[package]
name = "wallet"
version = "0.1.0"
edition = "2021"
publish = false

[dependencies]
aes-gcm = "=0.10.3"
pbkdf2 = "=0.12.2"
sha2 = "=0.10.9"
copypasta = { version = "=0.10.2", default-features = false, features = ["x11"] }
