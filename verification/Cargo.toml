[package]
name = "typepress"
version = "0.5.0"
edition = "2021"
publish = false

[dependencies]
anyhow = "=1.0.104"
clap = { version = "=4.6.7", features = ["derive"] }
lopdf = "=0.46.0"
mermaid-render = "=0.10.0"
pulldown-cmark = "=0.13.6"
regex = "=1.13.1"
regex-syntax = "=0.8.11"
reqwest = { version = "=0.12.28", default-features = false, features = ["blocking", "rustls-tls"] }
resvg = "=0.49.0"
serde = { version = "=1.0.229", features = ["derive"] }
serde_json = "=1.0.154"
serde_yaml = "=0.9.34"
sha2 = "=0.11.1"
syntect = { version = "=5.3.0", default-features = false, features = ["default-fancy"] }
tempfile = "=3.27.0"
thiserror = "=2.0.21"
tiny_http = "=0.12.0"
tiny-skia = "=0.12.0"
