[package]
name = "inkstone"
version = "0.1.0"
edition = "2021"
publish = false

[dependencies]
argon2 = "0.5"
base64 = "0.22"
chacha20poly1305 = "0.10"
data-encoding = "2"
getrandom = "0.3"
hkdf = "0.12"
sha2 = "0.10"
zeroize = "1"
ulid = "1"
time = { version = "0.3", features = ["formatting"] }
serde = { version = "1", features = ["derive"] }
serde_json = "1"
rusqlite = { version = "*", features = ["bundled"] }
