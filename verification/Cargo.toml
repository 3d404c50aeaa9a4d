[package]
name = "takeoff"
version = "0.1.0"
edition = "2021"
publish = false

[dependencies]
anyhow = "*"
geo = "*"
serde = { version = "*", features = ["derive"] }
uom = "*"
