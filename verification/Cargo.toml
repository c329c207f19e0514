[package]
name = "dedns"
version = "0.1.0"
edition = "2021"
publish = false

[dependencies]
anyhow = "1"
base64 = "0.22"
dashmap = "6"
dns-server = "*"
dotenv = "0.15"
futures-util = "0.3"
log = "0.4"
once_cell = "1"
permit = "*"
redb = "2"
serde = { version = "1", features = ["derive"] }
serde_json = "1"
signal-hook = "0.3"
solana-pubkey = "2"
tokio = { version = "1", features = ["rt-multi-thread", "macros", "sync", "time", "signal"] }
tokio-tungstenite = { version = "0.26", features = ["rustls-tls-webpki-roots"] }
tungstenite = "0.26"
tracing = "0.1"
tracing-subscriber = "0.3"
vdf = "0.1"

[dev-dependencies]
borsh = { version = "1", features = ["derive"] }
