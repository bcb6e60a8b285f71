[package]
name = "auto_server"
version = "0.1.0"
edition = "2021"
publish = false

[dependencies]
anyhow = "1"
base64 = "0.22"
bytes = "1"
clap = { version = "4", features = ["derive"] }
flate2 = "1"
h3 = "0.0.8"
h3-datagram = "0.0.2"
h3-quinn = { version = "0.0.10", features = ["datagram"] }
hickory-resolver = { version = "0.24", features = ["tokio-runtime", "system-config"] }
http = "1"
ipnet = "2"
libc = "0.2"
percent-encoding = "2"
quinn = { version = "0.11", default-features = false, features = ["runtime-tokio", "rustls-ring"] }
reqwest = { version = "0.12", default-features = false, features = ["json", "rustls-tls-native-roots"] }
rustls = { version = "0.23", default-features = false, features = ["ring", "std", "logging", "tls12"] }
rustls-pemfile = "2"
serde = { version = "1", features = ["derive"] }
tar = "0.4"
tempfile = "3"
tokio = { version = "1", features = ["full"] }
tracing = "0.1"
tracing-subscriber = { version = "0.3", features = ["env-filter"] }
