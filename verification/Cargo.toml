[package]
name = "iep"
version = "0.1.0"
edition = "2021"
publish = false

[dependencies]
tokio = { version = "1", features = ["sync", "rt-multi-thread", "net", "time", "macros"] }
rand = "0.8"
axum = "0.7"
maud = { version = "0.26", features = ["axum"] }
qrcode = "0.14"
serde = { version = "1", features = ["derive"] }
itertools = "0.13"
tokio-stream = { version = "0.1", features = ["sync"] }
tower = "0.4"
tower-http = { version = "0.5", features = ["normalize-path", "fs", "trace"] }
tracing = "0.1"
tracing-subscriber = { version = "0.3", features = ["env-filter"] }
