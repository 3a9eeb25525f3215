[package]
name = "narco"
version = "0.1.0"
edition = "2021"
publish = false

[dependencies]
argon2 = "0.5"
axum = { version = "0.8", features = ["ws"] }
base64 = "0.22"
chacha20poly1305 = "0.10"
data-encoding = "2"
ed25519-dalek = "2"
futures = "0.3"
futures-util = "0.3"
getrandom = "0.3"
hkdf = "0.12"
safelog = "*"
serde = { version = "1", features = ["derive"] }
sha2 = "0.10"
sha3 = "0.10"
spake2 = "0.4"
subtle = "2"
tokio = { version = "1", features = ["full"] }
tor-hscrypto = "*"
tor-llcrypto = "*"
tracing = "0.1"
unicode-normalization = "0.1"
zeroize = "1"
