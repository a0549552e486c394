[package]
name = "jarl_core"
version = "0.1.0"
edition = "2021"
publish = false

[dependencies]
anyhow = "1"
biome_rowan = "0.5"
colored = "3"
serde = { version = "1", features = ["derive"] }
