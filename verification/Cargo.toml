[package]
name = "sheldrive"
version = "0.1.0"
edition = "2021"
publish = false

[dependencies]
aes-gcm = "0.10"
sha2 = "0.10"
base64 = "0.22"
rand = "0.8"
hex = "0.4"
serde = { version = "1", features = ["derive"] }
serde_json = "1"
dirs = "5"
log = "0.4"
chrono = "0.4"
filetime = "0.2"
env_logger = "0.11"
libc = "0.2"
rusqlite = { version = "*", features = ["bundled"] }
fuser = { version = "*", default-features = false }
