[package]
name = "airboard_server"
version = "0.1.0"
edition = "2021"
publish = false

[dependencies]
sha2 = "=0.9.9"
rustable = "=0.2.2"
clap = "=2.34.0"
serde = { version = "=1.0.229", features = ["derive"] }
serde_yaml = "=0.8.26"
