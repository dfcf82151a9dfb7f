[package]
name = "game_sl"
version = "0.1.0"
edition = "2021"
publish = false

[dependencies]
chrono = "0.4"
zip = { version = "*", default-features = false, features = ["deflate"] }
serde = { version = "1", features = ["derive"] }
serde_json = "1"
trash = "*"
walkdir = "2"
