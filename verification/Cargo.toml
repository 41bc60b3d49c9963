[package]
name = "mildly-basic-auth"
version = "0.1.0"
edition = "2021"
publish = false

[dependencies]
axum = "0.8"
axum-reverse-proxy = "*"
blake3 = { version = "1", features = ["pure"] }
cookie = { version = "0.18", features = ["percent-encode"] }
form_urlencoded = "1"
tokio = { version = "1", features = ["macros", "net", "rt-multi-thread"] }
