[package]
name = "aws_env"
version = "0.1.0"
edition = "2021"
publish = false

[dependencies]
csv = "=1.4.0"
dirs = "=7.0.0"
indexmap = "=1.9.3"
ini_core = "=0.1.0"
log = "=0.4.34"
log4rs = "=1.4.0"
once_cell = "=1.21.4"
prettytable-rs = "=0.10.0"
serde = { version = "=1.0.229", features = ["derive"] }
serde_json = "=1.0.154"
structopt = "=0.3.26"
tokio = { version = "=1.54.1", features = ["full"] }
tokio-stream = { version = "=0.1.19", features = ["fs"] }
zeroize = "=1.9.1"
