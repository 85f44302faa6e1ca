[package]
name = "resh"
version = "0.1.0"
edition = "2021"
publish = false

[dependencies]
anyhow = "1"
dialoguer = "0.11"
hostname = "0.4"
libc = "0.2"
owo-colors = "4"
rand = "0.9"
serde = { version = "1", features = ["derive"] }
serde_json = "1"
