[package]
name = "aliaz"
version = "0.1.1"
edition = "2021"
publish = false

[dependencies]
anyhow = "1"
base64 = "0.22"
bip39 = { version = "2", features = ["rand"] }
chacha20poly1305 = "0.10"
clap = { version = "4", features = ["derive"] }
dialoguer = { version = "0.11", features = ["fuzzy-select"] }
dirs = "5"
flate2 = "1"
hkdf = "0.12"
keyring = { version = "3", features = ["apple-native", "windows-native", "linux-native"] }
rand = "0.8"
reqwest = { version = "0.12", default-features = false, features = ["blocking", "json", "rustls-tls"] }
rpassword = "7"
rusqlite = { version = "0.32", features = ["bundled"] }
serde = { version = "1", features = ["derive"] }
serde_json = "1"
sha2 = "0.10"
shlex = "1"
tar = "0.4"
uuid = { version = "1", features = ["v4"] }
