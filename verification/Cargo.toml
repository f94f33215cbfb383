[package]
name = "vision_core"
version = "0.1.0"
edition = "2021"
publish = false

[dependencies]
lopdf = "*"
serde = { version = "1", features = ["derive"] }
thiserror = "*"
