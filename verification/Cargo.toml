[package]
name = "boreal"
version = "0.1.0"
edition = "2021"
publish = false

[dependencies]
ammonia = "4"
axum = "0.7"
base64 = "0.22"
dirs = "5"
getrandom = "0.3"
libc = "0.2"
linkify = "0.10"
log = "0.4"
pulldown-cmark = { version = "0.12", default-features = false, features = ["html"] }
reqwest = { version = "0.12", default-features = false, features = ["blocking", "json", "rustls-tls"] }
rusqlite = { version = "0.32", features = ["bundled"] }
serde = { version = "1", features = ["derive"] }
serde_json = "1"
sha2 = "0.10"
tokio = { version = "1", features = ["rt", "net", "time", "io-util", "macros"] }
webbrowser = "1"
