[package]
name = "moranote"
version = "0.1.0"
edition = "2021"
publish = false

[dependencies]
anyhow = "1"
pulldown-cmark = "*"
serde = { version = "1", features = ["derive"] }
serde_json = "1"
toml = "*"
zip = { version = "*", default-features = false, features = ["deflate"] }
image = { version = "*", default-features = false, features = ["png", "jpeg"] }
