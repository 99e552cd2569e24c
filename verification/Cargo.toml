[package]
name = "fast-webdav"
version = "0.1.0"
edition = "2021"
publish = false

[dependencies]
aes = "0.8"
ctr = "0.9"
ring = "0.17"
hex = "0.4"
md-5 = "0.10"
sha1 = "0.10"
sha2 = "0.10"
url = "2"
chrono = "0.4"
base64 = "0.13"
serde = { version = "1", features = ["derive"] }
serde_json = "1"
bytes = "1"
anyhow = "1"
futures-util = "0.3"
reqwest = { version = "0.11", default-features = false, features = ["json", "multipart"] }
tokio = { version = "1", features = ["rt-multi-thread", "macros", "sync", "time"] }
tracing = "0.1"
tracing-subscriber = "0.3"
structopt = "0.3"
dav-server = "0.5"
hyper = { version = "0.14", features = ["server", "http1", "tcp"] }
headers = "0.3"
moka = { version = "0.11", features = ["future"] }
dashmap = "5"
