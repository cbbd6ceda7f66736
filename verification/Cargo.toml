[package]
name = "repassync"
version = "0.1.0"
edition = "2021"
publish = false

[dependencies]
openssl = "0.10"
secstr = "0.5"
chrono = { version = "0.4", default-features = false, features = ["clock"] }
rand = "0.8"
xdg = "2"
