[package]
name = "emoji_album"
version = "0.1.0"
edition = "2021"
publish = false

[dependencies]
indexmap = "1"
itertools = "0.9"
rand = "0.6"
telegram-bot = "0.7"
tokio = { version = "0.2", features = ["macros", "rt-threaded"] }
futures = "0.3"
dotenv = "0.15"
