[package]
name = "pokeget"
version = "2.4.0"
edition = "2021"
publish = false

[dependencies]
rand = "=0.8.8"
Inflector = "=0.11.4"
clap = { version = "=4.6.7", features = ["derive"] }
serde = { version = "=1.0.229", features = ["derive"] }
toml = "=0.8.23"
dirs = "=5.0.1"
image = { version = "=0.25.10", default-features = false, features = ["png"] }
showie = "=2.0.1"
