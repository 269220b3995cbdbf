[package]
name = "vanguard"
version = "0.1.0"
edition = "2021"
publish = false

[dependencies]
opentelemetry = "0.29"
opentelemetry_sdk = { version = "0.29", features = ["rt-tokio"] }
opentelemetry-otlp = { version = "0.29", features = ["grpc-tonic"] }
tracing-opentelemetry = "0.30"
tracing = "0.1"
tracing-subscriber = { version = "0.3", features = ["env-filter", "fmt"] }
ctrlc = "3"
serde = { version = "1", features = ["derive"] }
serde_json = "1"
bincode = "1"
tokio = { version = "1", features = ["full"] }
tokio-tungstenite = "0.26"
futures-util = { version = "0.3", features = ["sink"] }
warp = "0.3"
memmap2 = "0.9"
nix = { version = "0.30", features = ["fs", "socket", "uio", "mman"] }
socket2 = { version = "0.5", features = ["all"] }
core_affinity = "0.8"
tokio-uring = "0.5"
