[package]
name = "catan_game_api"
version = "0.1.0"
edition = "2021"
publish = false

[dependencies]
rand = "0.8"
serde = { version = "1", features = ["derive"] }
serde_json = "1"
actix-web = "4"
actix-ws = "0.3"
futures = "0.3"
