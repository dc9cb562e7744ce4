[package]
name = "proxy_tester"
version = "0.1.0"
edition = "2021"
publish = false

[dependencies]
anyhow = "1"
async-stream = "=0.3.6"
axum = { version = "=0.8.9", features = ["multipart", "ws"] }
bytes = "1"
chrono = { version = "=0.4.45", features = ["serde"] }
clap = { version = "4", features = ["derive", "env"] }
futures = "0.3"
h2 = "=0.4.20"
http = "=1.5.0"
libc = "0.2"
prost = "=0.13.5"
rand = "=0.9.5"
rcgen = { version = "=0.13.2", default-features = false, features = ["pem", "ring"] }
rustls = { version = "=0.23.46", default-features = false, features = ["ring", "std", "tls12"] }
rustls-pemfile = "=2.2.0"
serde = { version = "1", features = ["derive"] }
serde_json = "=1.0.154"
sha2 = "=0.10.9"
sqlx = { version = "=0.8.6", default-features = false, features = ["runtime-tokio", "sqlite"] }
thiserror = "2"
time = "=0.3.55"
tokio = { version = "=1.54.1", features = ["full"] }
tokio-rustls = { version = "=0.26.6", default-features = false, features = ["ring", "tls12"] }
tonic = "=0.13.1"
tower-http = { version = "=0.6.11", features = ["cors", "fs", "trace"] }
tracing = "0.1"
tracing-subscriber = { version = "0.3", features = ["env-filter"] }
uuid = { version = "=1.29.0", features = ["serde", "v4"] }
