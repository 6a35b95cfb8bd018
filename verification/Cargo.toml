[package]
name = "lumen"
version = "0.12.1"
edition = "2021"
publish = false

[dependencies]
url = "2"
base64 = "0.22"
jpeg-encoder = "*"
png = "*"
ratatui = { version = "*", default-features = false }
anyhow = "1"
serde = { version = "1", features = ["derive"] }
serde_json = "1"
tokio = { version = "1", features = ["rt-multi-thread", "macros", "process", "sync", "time", "io-util", "net", "signal"] }
axum = { version = "*", features = ["ws"] }
chromiumoxide = "*"
reqwest = { version = "*", default-features = false, features = ["blocking", "json"] }
rusqlite = { version = "*", features = ["bundled"] }
vt100 = "*"
portable-pty = "*"
atspi = "*"
wayland-client = "*"
wayland-protocols-wlr = { version = "*", features = ["client"] }
libc = "0.2"
futures = "0.3"
bytes = "1"
clap = { version = "4", features = ["derive", "env"] }
toml = "*"
tracing = "0.1"
tracing-subscriber = { version = "0.3", features = ["env-filter"] }
tokio-tungstenite = "*"
rust-embed = "*"
