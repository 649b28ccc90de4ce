[package]
name = "minginx"
version = "0.1.0"
edition = "2021"
publish = false

[dependencies]
globset = "=0.4.20"
regex = "=1.13.1"
tokio = { version = "1", features = ["full"] }
clap = "4"
log = "0.4"
env_logger = "0.11"
async-trait = "0.1"
hyper = { version = "1", features = ["full"] }
time = { version = "0.3", features = ["formatting", "parsing"] }
async-compression = "0.4"
