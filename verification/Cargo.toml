[package]
name = "battleship_core"
version = "0.1.0"
edition = "2021"
publish = false

[dependencies]
risc0-zkvm = "*"
rand = "*"
serde = { version = "*", features = ["derive"] }
anyhow = "*"
inquire = "*"
regex = "*"
