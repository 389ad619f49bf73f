[package]
name = "native_audio"
version = "0.1.0"
edition = "2021"
publish = false

[dependencies]
dirs = "6"
hex = "0.4"
parking_lot = "0.12"
rodio = "0.20"
serde = { version = "1", features = ["derive"] }
serde_json = "1"
sha2 = "0.10"
ureq = "2"
