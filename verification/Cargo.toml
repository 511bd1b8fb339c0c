[package]
name = "game_of_life"
version = "0.1.0"
edition = "2021"
publish = false

[dependencies]
clap = { version = "4", features = ["derive"] }
env_logger = "0.10"
log = "0.4"
pixels = "0.13"
rand = "0.8"
strum = { version = "0.26", features = ["derive"] }
winit = "0.28"
