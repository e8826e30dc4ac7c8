[package]
name = "katana"
version = "0.1.0"
edition = "2021"
publish = false

[dependencies]
chrono = { version = "0.4", default-features = false, features = ["std"] }
clap = "3"

[dev-dependencies]
regex = "1"
