[package]
name = "blockymodel"
version = "0.1.0"
edition = "2021"
publish = false

[dependencies]
serde = { version = "1", features = ["derive"] }
serde_json = "1"
vek = "0.17.1"
bytemuck = { version = "1.7", features = ["derive"] }
thiserror = "*"
anyhow = "1"
log = "0.4"
env_logger = "*"
image = { version = "0.25", default-features = false, features = ["png"] }
