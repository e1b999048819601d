[package]
name = "openinfer"
version = "0.1.0"
edition = "2021"
publish = false

[dependencies]
anyhow = "=1.0.104"
clap = { version = "=4.6.7", features = ["derive"] }
comfy-table = "=7.2.2"
cudarc = { version = "=0.19.10", default-features = false, features = ["std", "driver", "runtime", "dynamic-loading", "cuda-12080"] }
fastrace = { version = "=0.7.19", features = ["enable"] }
log = "=0.4.35"
rand = "=0.10.3"
rmp-serde = "=1.3.1"
rmpv = { version = "=1.3.1", features = ["with-serde"] }
serde = { version = "=1.0.229", features = ["derive"] }
serde_json = "=1.0.154"
tokio = { version = "=1.54.1", features = ["full"] }
tokio-util = "=0.7.20"
uuid = { version = "=1.29.0", features = ["v4"] }
zeromq = "=0.4.1"
