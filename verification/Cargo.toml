[package]
name = "mediaflow_proxy"
version = "0.1.0"
edition = "2021"
publish = false

[dependencies]
actix-web = { version = "4", default-features = false, features = ["macros"] }
aes-gcm = "0.10"
async-stream = "0.3"
async-trait = "0.1"
base64 = "0.22"
bytes = "1"
config = { version = "0.15", default-features = false, features = ["toml"] }
dashmap = "6"
futures = "0.3"
grammers-client = "0.7"
grammers-tl-types = "0.7"
m3u8-rs = "6"
mime_guess = "2"
regex = "1"
reqwest = { version = "0.12", default-features = false, features = ["stream", "json", "rustls-tls", "socks"] }
serde = { version = "1", features = ["derive"] }
serde_json = "1"
time = { version = "0.3", features = ["formatting"] }
tokio = { version = "1", features = ["sync", "time", "rt", "macros"] }
tracing = "0.1"
url = "2"
urlencoding = "2"
