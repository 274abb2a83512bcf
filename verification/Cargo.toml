[package]
name = "mincost"
version = "0.1.0"
edition = "2021"
publish = false

[dependencies]
fastrand = "2"
serde = { version = "1", features = ["derive"] }
serde_yaml = "0.9"
thiserror = "1"
