[package]
name = "allezon"
version = "0.1.0"
edition = "2021"
publish = false

[dependencies]
aerospike = "*"
anyhow = "*"
env_logger = "*"
envy = "*"
futures-util = "*"
log = "*"
rand = "*"
rdkafka = "*"
serde = { version = "*", features = ["derive"] }
serde_json = "*"
tokio = { version = "*", features = ["full"] }
warp = { version = "*", features = ["server"] }
