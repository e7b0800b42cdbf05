[package]
name = "protocol"
version = "0.1.0"
edition = "2021"
publish = false

[dependencies]
anyhow = "1"
bytes = "1"
clap = { version = "4", features = ["env"] }
env_logger = "0.11"
futures-util = "0.3"
log = "0.4"
serde = "1"
thiserror = "1"
tokio = { version = "1", features = ["net", "rt-multi-thread"] }
tokio-util = { version = "0.7", features = ["codec"] }
