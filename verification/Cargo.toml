[package]
name = "rcman"
version = "0.1.0"
edition = "2021"
publish = false

[dependencies]
serde = { version = "1", features = ["derive"] }
serde_json = "1"
sha2 = "0.10"
keyring-core = "*"
base64 = "0.22"
aes-gcm = "0.10"
argon2 = "0.5"
rand = "0.9"
regex = "1"
zip = { version = "*", default-features = false, features = ["deflate", "aes-crypto"] }
tempfile = "3"
time = { version = "0.3", features = ["formatting", "macros"] }
chrono = { version = "0.4", features = ["serde"] }
rusqlite = { version = "*", features = ["bundled"] }
notify = "*"
dirs = "*"
thiserror = "*"
log = "0.4"
toml = "*"
