[package]
name = "chat_relay"
version = "0.1.0"
edition = "2021"
publish = false

[dependencies]
aes-gcm = "0.10"
hex = "0.4"
rand = "0.8"
rsa = "0.9"
