[package]
name = "headless"
version = "0.1.0"
edition = "2021"
publish = false

[dependencies]
anyhow = "1"
ctrlc = "3"
futures = "0.3"
log = "0.4"
postage = "0.5"
schemars = "0.8"
serde = { version = "1", features = ["derive"] }
serde_json = "1"
