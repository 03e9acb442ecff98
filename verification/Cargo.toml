[package]
name = "ghostwriter"
version = "0.1.0"
edition = "2021"
publish = false

[dependencies]
unicode-segmentation = "*"
crc32fast = "*"
regex = "*"
argon2 = "*"
tokio = { version = "*", features = ["rt", "rt-multi-thread", "macros", "net", "time", "sync", "io-util"] }
tokio-tungstenite = "*"
futures-util = "*"
serde = { version = "*", features = ["derive"] }
rmp-serde = "*"
serde_json = "*"
clap = { version = "*", features = ["derive"] }
crossterm = "*"
rand = "*"
tempfile = "*"
notify = "*"
walkdir = "*"
memmap2 = "*"
fs4 = "*"
url = "*"
uuid = { version = "*", features = ["v4"] }
ratatui = "*"

[dev-dependencies]
