[package]
name = "hangman"
version = "0.1.0"
edition = "2021"
publish = false

[dependencies]
diacritics = "*"
rand = "0.8"
tokio = { version = "*", features = ["macros", "rt-multi-thread"] }
twitch-irc = "*"
