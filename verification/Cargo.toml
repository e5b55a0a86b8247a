[package]
name = "me"
version = "0.0.267"
edition = "2021"
publish = false

[dependencies]
base64 = "0.22"
chrono = "0.4"
flate2 = "1"
fs2 = "0.4"
getrandom = "0.3"
pulldown-cmark = { version = "0.13", default-features = false }
reqwest = { version = "0.12", default-features = false, features = ["blocking", "json", "rustls-tls"] }
serde = { version = "1", features = ["derive"] }
serde_json = "1"
sha2 = "0.10"
tar = "0.4"
tiktoken-rs = "*"
two-face = { version = "*", default-features = false, features = ["syntect-default-fancy"] }
unicode-segmentation = "1"
unicode-width = "0.2"
zstd = "0.13"
