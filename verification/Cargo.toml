[package]
name = "instant_netboot"
version = "0.1.0"
edition = "2021"
publish = false

[dependencies]
anyhow = "*"
async-std = "*"
async-tftp = "*"
async-trait = "*"
clap = { version = "*", features = ["derive"] }
futures = "*"
serde = { version = "*", features = ["derive"] }
serde_yaml = "*"
tracing = "*"
tracing-subscriber = "*"
