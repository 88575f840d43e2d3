[package]
name = "x_mcp_server"
version = "0.1.0"
edition = "2021"
publish = false

[dependencies]
base64 = "*"
chrono = "*"
hmac = "*"
rand = "*"
sha1 = "*"
dotenvy = "*"
reqwest = { version = "*", default-features = false, features = ["blocking", "rustls-tls"] }
