[package]
name = "tourney"
version = "0.1.0"
edition = "2021"
publish = false

[dependencies]
linked-hash-map = "0.5"
rand = "0.8"
serenity = { version = "0.10", features = ["collector"] }
tokio = { version = "1", features = ["macros", "rt-multi-thread"] }
