[package]
name = "ragar"
version = "0.1.0"
edition = "2021"
publish = false

[dependencies]
rand = "0.7"
serde = { version = "1", features = ["derive"] }
serde_json = "1"
tokio = "0.1"
futures = "0.1"
bytemuck = { version = "1", features = ["derive"] }
