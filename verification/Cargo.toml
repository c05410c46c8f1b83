[package]
name = "kutsu"
version = "0.1.0"
edition = "2021"
publish = false

[dependencies]
anyhow = "1"
async-http-proxy = { version = "1.2", features = ["basic-auth", "runtime-tokio"] }
audio_thread_priority = { version = "0.38", default-features = false }
axum = "0.8"
bytes = "1"
bytesstr = "1"
clap = { version = "4", features = ["derive", "env"] }
ezk-rtc = "0.0.1"
ezk-sip-auth = "0.5"
ezk-sip-core = "0.9"
ezk-sip-types = "0.6"
ezk-sip-ua = "0.9"
futures-util = "0.3"
hound = "=3.5.1"
rmcp = { version = "=3.8.0", features = ["server", "transport-io", "transport-streamable-http-server"] }
rustls = { version = "0.23", default-features = false, features = ["logging", "ring", "std", "tls12"] }
schemars = "1"
serde = { version = "1", features = ["derive"] }
serde_json = "=1.0.154"
subtle = "=2.6.1"
thiserror = "2"
tokio = { version = "1", features = ["full"] }
tokio-tungstenite = { version = "0.30", features = ["rustls-tls-webpki-roots"] }
toml = "0.9"
tracing = "0.1"
tracing-log = "0.2"
tracing-subscriber = { version = "0.3", features = ["env-filter", "json"] }
