[package]
name = "bevy_entitiles"
version = "0.2.0"
edition = "2021"
publish = false

[dependencies]
bevy = { version = "0.12", default-features = false }
serde = { version = "1", features = ["derive"] }
