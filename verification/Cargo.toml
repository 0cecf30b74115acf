[package]
name = "paneru"
version = "0.1.0"
edition = "2021"
publish = false

[dependencies]
regex = "1"
serde = { version = "1", features = ["derive"] }
serde_json = "1"
rmp-serde = "1"
postcard = { version = "1", features = ["use-std"] }
toml = "*"
xdg = "*"
