[package]
name = "arcaferry"
version = "0.1.0"
edition = "2021"
publish = false

[dependencies]
base64 = "=0.23.1"
crc32fast = "=1.5.2"
flate2 = "=1.1.10"
serde_json = "=1.0.151"
url = "=2.5.8"
chrono = "=0.4.45"
serde = { version = "=1.0.229", features = ["derive"] }
axum = "=0.8.9"
tokio = { version = "=1.53.2", features = ["rt-multi-thread", "macros", "net", "time", "process", "sync", "io-util"] }
tower-http = { version = "=0.7.1", features = ["cors"] }
wreq = "=0.15.3"
wreq-util = "=0.1.0"
futures = "=0.3.34"
tracing = "=0.1.44"
tracing-subscriber = { version = "=0.3.23", features = ["env-filter"] }
async-trait = "=0.1.92"
strum = "=0.28.0"
