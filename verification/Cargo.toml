[package]
name = "wave2"
version = "0.1.0"
edition = "2021"
publish = false

[dependencies]
vcd = "0.6"
bit-vec = "0.6"
sled = "0.34"
bincode = "1"
serde = { version = "1", features = ["derive"] }
toml = "0.5"
clap = { version = "3", features = ["derive"] }
env_logger = "0.9"
log = "0.4"
