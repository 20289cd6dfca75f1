[package]
name = "unidrop"
version = "0.3.0"
edition = "2021"
publish = false

[dependencies]
crc32fast = "=1.5.4"
ring = "=0.17.14"
base64 = "=0.22.1"
hex = "=0.4.3"
sha2 = "=0.10.9"
hmac = "=0.12.1"
uuid = { version = "=1.29.0", features = ["v4"] }
serde = { version = "1", features = ["derive"] }
serde_json = "1"
image = { version = "0.25", default-features = false, features = ["png"] }
rusqlite = { version = "*", features = ["bundled"] }
rustls = { version = "0.23", default-features = false, features = ["ring", "std", "tls12", "logging"] }
webpki-roots = "1"
whoami = "1"
