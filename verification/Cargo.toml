[package]
name = "jl_ui"
version = "0.1.0"
edition = "2021"
publish = false

[dependencies]
macroquad = "0.4"
quick-xml = "*"
serde = { version = "1", features = ["derive"] }
serde_json = "1"
log = "0.4"
env_logger = "*"
chrono = "0.4"
colored = "*"
