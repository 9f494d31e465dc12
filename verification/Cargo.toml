[package]
name = "analyzerl_boxcars"
version = "0.1.0"
edition = "2021"
publish = false

[dependencies]
anyhow = "*"
boxcars = "*"
serde = { version = "*", features = ["derive"] }
serde_json = "*"
csv = "*"
rayon = "*"
