[package]
name = "tropel_inputs"
version = "0.6.0"
edition = "2021"
publish = false

[dependencies]
async-trait = "=0.1.92"
base64 = "=0.23.1"
flate2 = "=1.1.10"
futures = "=0.3.34"
futures-util = "=0.3.34"
http = "=1.5.0"
inventory = "=0.3.25"
rquickjs = { version = "=0.14.0", features = ["loader"] }
serde = { version = "=1.0.229", features = ["derive"] }
serde_json = { version = "=1.0.154", features = ["preserve_order"] }
tokio = { version = "=1.54.1", features = ["rt", "rt-multi-thread", "macros", "sync", "time"] }
tokio-tungstenite = "=0.30.0"
tracing = "=0.1.44"
yaml_serde = "=0.10.7"
