[package]
name = "brewcolor"
version = "0.1.0"
edition = "2021"
publish = false

[dependencies]
anyhow = "=1.0.104"
colored = "=3.1.1"
csv = "=1.4.0"
itertools = "=0.15.0"
regex = "=1.13.1"
serde = { version = "=1.0.229", features = ["derive"] }
serde_json = "=1.0.154"
term_size = "=0.3.2"
version-compare = "=0.0.13"
