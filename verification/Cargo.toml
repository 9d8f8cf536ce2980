[package]
name = "theorem_prover"
version = "0.1.0"
edition = "2021"
publish = false

[dependencies]
clap = { version = "4", features = ["derive"] }
ctrlc = "3"
env_logger = "0.11"
log = "0.4"
rusqlite = { version = "*", features = ["bundled"] }
