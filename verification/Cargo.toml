[package]
name = "pwned_bot"
version = "0.1.0"
edition = "2021"
publish = false

[dependencies]
futures = "*"
reqwest = { version = "*", default-features = false, features = ["blocking"] }
telegram-bot = "*"
