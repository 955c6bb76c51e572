[package]
name = "geiger"
version = "0.1.0"
edition = "2021"
publish = false

[dependencies]
cargo = "0.52"
colored = "=1.9.4"
env_logger = "=0.6.2"
failure = "=0.1.8"
petgraph = "=0.4.13"
serde = { version = "=1.0.229", features = ["derive"] }
serde_json = "=1.0.154"
structopt = "=0.2.18"
syn = { version = "=0.15.44", features = ["full", "visit"] }
walkdir = "=2.5.0"
