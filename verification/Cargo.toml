[package]
name = "phantun-client-mac"
version = "0.1.0"
edition = "2021"
publish = false

[dependencies]
async-trait = "0.1"
clap = "4"
libc = "0.2"
log = "0.4"
num_cpus = "1"
pretty_env_logger = "0.5"
serde = { version = "1", features = ["derive"] }
serde_json = "1"
tokio = { version = "1", features = ["full"] }
tokio-util = "0.7"

[dev-dependencies]
pnet_packet = "0.35"
