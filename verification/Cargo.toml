[package]
name = "pgspredictor"
version = "0.1.0"
edition = "2021"
publish = false

[dependencies]
anyhow = "=1.0.104"
clap = { version = "=4.6.7", features = ["derive"] }
crossbeam = "=0.8.5"
env_logger = "=0.10.2"
interp = "=2.1.2"
log = "=0.4.34"
ndarray = "=0.15.6"
polars = { version = "=0.32.1", features = ["lazy", "ndarray", "rank", "propagate_nans", "is_in"] }
serde = { version = "=1.0.229", features = ["derive"] }
serde_json = "=1.0.154"
thiserror = "=1.0.69"
