[package]
name = "osc_commands"
version = "0.1.0"
edition = "2021"
publish = false

[dependencies]
rosc = "*"
shell-words = "1"
serde = { version = "1", features = ["derive"] }
serde_json = "1"
dirs = "*"
threadpool = "1"
valico = "*"
