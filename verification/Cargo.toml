[package]
name = "apibook"
version = "0.1.0"
edition = "2021"
publish = false

[dependencies]
anyhow = "1"
mdbook = "0.4"
mdbook-admonish = "*"
serde = { version = "1", features = ["derive"] }
tera = "1"
toml = { version = "0.8", features = ["preserve_order"] }
walkdir = "2"
