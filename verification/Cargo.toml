[package]
name = "waybar_vdesk"
version = "0.1.0"
edition = "2021"
publish = false

[dependencies]
regex = "1"
fastrand = "2"
anyhow = "1"
log = "0.4"
serde = { version = "1", features = ["derive"] }
serde_json = "1"
tokio = { version = "1", features = ["full"] }
waybar-cffi = "*"

[dev-dependencies]
serde_json = "1"
