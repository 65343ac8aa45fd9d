[package]
name = "pm3_adapters"
version = "0.1.0"
edition = "2021"
publish = false

[dependencies]
sha2 = "0.10"
chrono = "0.4"
serde = { version = "1", features = ["derive"] }
serde_json = "1"
serde_yaml2 = "*"
tokio = { version = "1", features = ["fs", "process", "time", "io-util", "rt", "macros", "sync"] }
tracing = "0.1"
thiserror = "2"
