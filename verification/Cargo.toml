[package]
name = "mezon_desktop"
version = "0.1.0"
edition = "2021"
publish = false

[dependencies]
image = { version = "=0.25.10", default-features = false, features = ["png", "jpeg", "gif", "webp"] }
arboard = "=3.7.0"
x11rb = "=0.13.2"
serde = { version = "=1.0.229", features = ["derive"] }
serde_json = "=1.0.154"
once_cell = "=1.21.4"
parking_lot = "=0.12.5"
hostname = "=0.4.2"
reqwest = { version = "=0.12.28", default-features = false, features = ["blocking", "rustls-tls"] }
