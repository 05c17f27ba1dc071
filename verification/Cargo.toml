[package]
name = "stock"
version = "0.1.0"
edition = "2021"
publish = false

[dependencies]
rand = "0.8"
serde = { version = "1", features = ["derive"] }
actix = "0.10"
actix-web = { version = "3", default-features = false }
actix-web-actors = "3"
env_logger = "0.8"
futures = "0.3"
