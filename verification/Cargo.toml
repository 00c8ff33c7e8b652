[package]
name = "hashbench"
version = "0.1.0"
edition = "2021"
publish = false

[dependencies]
bcrypt = "0.15"
pbkdf2 = { version = "0.12", features = ["simple", "std"] }
