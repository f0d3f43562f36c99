[package]
name = "facebook_totem"
version = "0.1.0"
edition = "2021"
publish = false

[dependencies]
anyhow = "=1.0.104"
clap = { version = "=4.6.7", features = ["derive"] }
csv = "=1.4.0"
fake-useragent = "=0.1.3"
indicatif = "=0.18.6"
reqwest = { version = "=0.13.5", features = ["cookies", "query", "form"] }
serde_json = "=1.0.151"
tokio = { version = "=1.53.2", features = ["macros", "rt-multi-thread"] }
