[package]
name = "datex_cli"
version = "0.1.0"
edition = "2021"
publish = false

[dependencies]
colored = "=3.1.1"
home = "=0.5.12"
clap = { version = "=4.6.7", features = ["derive"] }
tokio = { version = "=1.54.1", features = ["full"] }
rustyline = { version = "=19.0.0", default-features = false, features = ["with-dirs", "with-file-history"] }
ratatui = { version = "=0.30.2", default-features = false, features = ["crossterm", "layout-cache", "underline-color"] }
crossterm = "=0.29.0"
realhydroper-lsp = "=0.22.0"
url = "=2.5.8"
log = "=0.4.35"
futures = "=0.3.34"
futures-util = "=0.3.34"
tokio-tungstenite = "=0.30.0"
tungstenite = "=0.30.0"
bytes = "=1.12.1"
serialport = { version = "=4.10.1", default-features = false }
reqwest = { version = "=0.12.28", default-features = false }
async_tiny = "=0.4.0"
webrtc = "*"
