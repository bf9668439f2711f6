[package]
name = "mc_login"
version = "0.1.0"
edition = "2021"
publish = false

[dependencies]
aes = "=0.8.4"
cfb8 = "=0.8.1"
sha1 = "=0.6.1"
num-bigint = "=0.4.8"
rsa = "=0.6.1"
rsa-der = "=0.3.0"
rand = "=0.8.8"
anyhow = "=1.0.104"
tokio = { version = "=1.54.1", features = ["net", "io-util", "rt-multi-thread", "macros"] }
reqwest = { version = "=0.11.27", default-features = false, features = ["json"] }
mojang-api = "=0.6.1"
