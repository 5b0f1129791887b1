[package]
name = "voice_input"
version = "0.1.0"
edition = "2021"
publish = false

[dependencies]
uuid = { version = "1", features = ["v4"] }
hound = "3.5"
serde = { version = "1", features = ["derive"] }
serde_json = "1"
reqwest = { version = "0.12", default-features = false, features = ["json", "multipart"] }
arboard = { version = "3", default-features = false }
enigo = "0.2"
cpal = "0.15"
