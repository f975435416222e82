[package]
name = "mediaflow_proxy_light"
version = "0.1.0"
edition = "2021"
publish = false

[dependencies]
aes = "*"
base64 = "*"
rand = "*"
url = "*"
serde = { version = "*", features = ["derive"] }
serde_json = "*"
actix-web = "*"
actix-cors = "*"
futures = "*"
reqwest = { version = "*", default-features = false, features = ["rustls-tls", "socks", "stream", "json"] }
tokio = { version = "*", features = ["rt-multi-thread", "macros", "time"] }
tracing = "*"
tracing-subscriber = { version = "*", features = ["env-filter", "fmt"] }
config = "*"
