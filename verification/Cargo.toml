[package]
name = "spielab"
version = "0.1.0"
edition = "2021"
publish = false

[dependencies]
anyhow = "1"
ashpd = { version = "0.11", default-features = false, features = ["tokio"] }
async-channel = "2"
chacha20poly1305 = "0.10"
hkdf = "0.12"
libc = "0.2"
plist = "1"
rand = "0.8"
serde = { version = "1", features = ["derive"] }
serde_json = "1"
sha2 = "0.10"
tokio = { version = "1", features = ["full"] }
uuid = { version = "1", features = ["v4"] }

[dev-dependencies]
symphonia-codec-alac = "0.5"
symphonia-core = "0.5"
tempfile = "3"
