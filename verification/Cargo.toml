[package]
name = "quilkin"
version = "0.1.0"
edition = "2021"
publish = false

[dependencies]
uuid = { version = "=1.27.0", features = ["v4"] }
sys-info = "=0.9.1"
serde = { version = "=1.0.229", features = ["derive"] }
serde_json = "=1.0.151"
serde_yaml = "=0.9.34"
base64 = "=0.23.1"
clap = { version = "=4.6.7", features = ["derive", "env"] }
tokio = { version = "=1.53.2", features = ["rt-multi-thread", "net", "sync", "time", "macros", "signal"] }
num_cpus = "=1.17.0"
socket2 = "=0.6.5"
