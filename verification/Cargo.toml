[package]
name = "bitcoin_bench"
version = "0.1.0"
edition = "2021"
publish = false

[dependencies]
anyhow = "=1.0.104"
chrono = "=0.4.45"
clap = { version = "=4.6.7", features = ["derive", "env", "string"] }
dirs = "=7.0.0"
env_logger = "=0.11.11"
log = "=0.4.34"
plotters = "=0.3.7"
rusqlite = { version = "=0.40.2", features = ["bundled"] }
serde = { version = "=1.0.229", features = ["derive"] }
tempdir = "=0.3.7"
toml = "=1.1.7"
which = "=8.0.6"
