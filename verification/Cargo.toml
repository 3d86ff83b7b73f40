[package]
name = "ssh_manager"
version = "0.1.0"
edition = "2021"
publish = false

[dependencies]
ansi_term = "0.12"
clap = { version = "4", features = ["derive"] }
dirs = "*"

[dev-dependencies]
serde_json = "1"
