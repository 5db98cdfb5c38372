[package]
name = "m3u8_core"
version = "0.1.0"
edition = "2021"
publish = false

[dependencies]
regex = "1"
aes = "0.8"
cbc = "0.1"
m3u8-rs = "6"
url = "2"
anyhow = "1"
tokio = { version = "1", features = ["full"] }
reqwest = { version = "0.12", default-features = false, features = ["rustls-tls", "stream"] }
sqlx = { version = "0.8", default-features = false, features = ["runtime-tokio", "sqlite", "chrono", "macros"] }
axum = "0.7"
serde = { version = "1", features = ["derive"] }
serde_json = "1"
chrono = { version = "0.4", features = ["serde"] }
uuid = { version = "1", features = ["v4"] }
tracing = "0.1"
tracing-subscriber = { version = "0.3", features = ["env-filter"] }
tower-http = { version = "0.5", features = ["cors", "fs"] }
dotenv = "0.15"
futures-util = "0.3"
which = "6"
async-recursion = "1"
lazy_static = "1"
