[package]
name = "poke_shakespeare"
version = "0.1.0"
edition = "2021"
publish = false

[dependencies]
lru = "=0.18.5"
serde = { version = "=1.0.229", features = ["derive"] }
serde_json = "=1.0.151"
reqwest = { version = "=0.13.5", default-features = false, features = ["blocking", "json", "form"] }
