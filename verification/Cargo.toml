[package]
name = "tcp_tunnel"
version = "0.1.0"
edition = "2021"
publish = false

[dependencies]
aead = { version = "0.5", features = ["getrandom"] }
chacha20poly1305 = "0.10"
rand = "*"
anyhow = "*"
log = "*"
env_logger = "*"
tokio = { version = "*", features = ["full"] }
quinn = "*"
rustls = { version = "*", features = ["ring"] }
tun = "*"
