[package]
name = "moq-mmtp"
version = "0.1.0"
edition = "2021"
publish = false

[dependencies]
anyhow = "1"
bytes = "1"
clap = { version = "4", features = ["derive"] }
futures = "0.3"
metrics = "0.24"
metrics-exporter-prometheus = "*"
pprof = { version = "*", features = ["flamegraph", "protobuf-codec"] }
quinn = { version = "0.11", features = ["qlog"] }
rand = "0.8"
rustls = "0.23"
serde = { version = "1", features = ["derive"] }
serde_json = "1"
socket2 = { version = "0.5", features = ["all"] }
thiserror = "1"
tikv-jemalloc-ctl = { version = "*", features = ["stats"] }
tikv-jemallocator = "*"
tiny_http = "0.12"
tokio = { version = "1", features = ["full"] }
tracing = "0.1"
tracing-subscriber = { version = "0.3", features = ["env-filter"] }
url = "2"
web-transport = "*"
web-transport-quinn = "*"
