[package]
name = "mailclient"
version = "0.1.0"
edition = "2021"
publish = false

[dependencies]
aes-gcm = "*"
pbkdf2 = "*"
sha2 = "*"
rand = "*"
hex = "*"
md5 = "*"
ammonia = "*"
html-escape = "*"
chrono = "*"
serde = { version = "*", features = ["derive"] }
serde_json = "*"
