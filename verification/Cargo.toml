[package]
name = "butterfly"
version = "0.1.0"
edition = "2021"
publish = false

[dependencies]
clap = { version = "=4.6.7", features = ["derive", "env"] }
env_logger = "=0.11.11"
futures = "0.3"
log = "=0.4.34"
parking_lot = "=0.12.5"
prometheus = { version = "=0.13.4", default-features = false }
serde = { version = "=1.0.229", features = ["derive"] }
structopt = "=0.3.26"
thiserror = "=1.0.69"
tokio = { version = "1", features = ["rt", "rt-multi-thread"] }
url = "=2.5.8"
zmq = "=0.10.0"
