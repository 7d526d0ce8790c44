[package]
name = "giralnet"
version = "0.1.0"
edition = "2021"
publish = false

[dependencies]
rsa = "0.9"
aes-gcm = "0.10"
rand = "0.8"
serde = { version = "1", features = ["derive"] }
toml = "0.8"
tokio = { version = "1", features = ["full"] }
tokio-rustls = "0.24"
rustls-pemfile = "1"
webpki = "0.22"
fast-socks5 = "0.9"
rcgen = "0.11"
dialoguer = "0.11"
colored = "2"
