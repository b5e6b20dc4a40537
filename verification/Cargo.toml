[package]
name = "nonplanar"
version = "0.1.0"
edition = "2021"
publish = false

[dependencies]
anyhow = "=1.0.104"
clap = { version = "=4.6.7", features = ["derive"] }
nalgebra = { version = "=0.35.0", features = ["serde-serialize"] }
serde = { version = "=1.0.229", features = ["derive"] }
serde_json = "=1.0.151"
stl_io = "=0.11.0"
