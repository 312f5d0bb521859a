[package]
name = "rubit"
version = "0.1.0"
edition = "2021"
publish = false

[dependencies]
sha1 = "0.10"
rand = "0.8"
url = "2"
ureq = "2"
clap = { version = "4", features = ["derive"] }
indicatif = "0.17"
