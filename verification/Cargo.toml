[package]
name = "bcachefs_exporter"
version = "0.1.0"
edition = "2021"
publish = false

[dependencies]
uuid = "1"
byte-unit = "5"
anyhow = "1"
axum = "0.8"
clap = { version = "4", features = ["derive"] }
http = "1"
tokio = { version = "1", features = ["macros", "net", "rt"] }
tracing = "0.1"
tracing-subscriber = { version = "0.3", features = ["env-filter"] }
