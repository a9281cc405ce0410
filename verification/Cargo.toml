[package]
name = "roncad"
version = "0.1.0"
edition = "2021"
publish = false

[dependencies]
anyhow = "=1.0.104"
directories = "=6.0.0"
glam = "*"
serde = { version = "=1.0.229", features = ["derive"] }
serde_json = "=1.0.154"
slotmap = { version = "=1.1.1", features = ["serde"] }
thiserror = "=2.0.21"
