[package]
name = "dvcs"
version = "0.1.0"
edition = "2021"
publish = false

[dependencies]
sha1 = "0.10"
hex = "0.4"
serde = { version = "1", features = ["derive"] }
serde_json = "1"
colored = "2"
rand = "0.8"
