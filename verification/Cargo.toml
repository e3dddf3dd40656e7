[package]
name = "id_gen"
version = "0.1.0"
edition = "2021"
publish = false

[dependencies]
base64 = "*"
serde = { version = "*", features = ["derive"] }
serde_json = "*"
serde_yaml = "*"
log = "*"
log4rs = "*"
anyhow = "*"
atomic-waker = "*"
futures = "*"
actix-web = "*"
awc = "*"
