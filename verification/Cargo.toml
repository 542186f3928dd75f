[package]
name = "booru_fetch"
version = "0.1.0"
edition = "2021"
publish = false

[dependencies]
select = "=0.6.1"
regex = "=1.13.1"
serde = { version = "=1.0.229", features = ["derive"] }
serde_json = "=1.0.154"
toml = "=1.1.8"
reqwest = "=0.12.28"
wreq = "=0.15.3"
wreq-util = "=0.1.0"
tokio = { version = "=1.54.1", features = ["full"] }
rand = "=0.9.5"
colored = "=3.1.1"
