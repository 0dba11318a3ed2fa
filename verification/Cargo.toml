[package]
name = "image_server"
version = "0.1.0"
edition = "2021"
publish = false

[dependencies]
image = "=0.24.9"
uuid = { version = "=1.27.0", features = ["serde"] }
serde_json = "=1.0.151"
actix-web = "=4.15.0"
actix-multipart = "=0.6.2"
futures-util = "=0.3.34"
