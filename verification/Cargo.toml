[package]
name = "autosplash"
version = "0.1.0"
edition = "2021"
publish = false

[dependencies]
chan = "0.1"
chrono = "0.4"
rand = "0.8"
reqwest = { version = "0.12", default-features = false, features = ["blocking", "rustls-tls"] }
rust-ini = "*"
termion = "*"
wallpaper = "*"
