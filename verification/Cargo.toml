[package]
name = "overfry"
version = "0.2.1"
edition = "2021"
publish = false

[dependencies]
axum = "0.8"
base64 = "0.22"
chrono = "0.4"
futures = "0.3"
gray_matter = "0.2"
ignore = "0.4"
moka = { version = "0.12", features = ["sync"] }
notify = "8"
open = "5"
rand = "0.8"
rcgen = "0.13"
regex = "1"
reqwest = { version = "0.12", default-features = false, features = ["json", "rustls-tls"] }
rustls-pemfile = "2"
serde = { version = "1", features = ["derive"] }
serde_json = { version = "1", features = ["preserve_order"] }
serde_yaml = "0.9"
sha2 = "0.10"
tempfile = "3"
tokio = { version = "1", features = ["full"] }
tokio-rustls = { version = "0.26", default-features = false, features = ["ring", "tls12"] }
tower = { version = "0.5", features = ["util"] }
tower-http = { version = "0.6", features = ["cors", "limit", "timeout"] }
uuid = { version = "1", features = ["v4"] }
