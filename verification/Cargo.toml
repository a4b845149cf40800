[package]
name = "recfs"
version = "0.1.0"
edition = "2021"
publish = false

[dependencies]
anyhow = "1"
base64 = "0.13"
bimap = "0.6"
binary_macros = "*"
chrono = "0.4"
clap = { version = "4", features = ["derive"] }
env_logger = "0.10"
file-lock = "2"
fuse_mt = "0.6"
keyring = "1"
libaes = "*"
libc = "0.2"
log = "0.4"
md5 = "0.7"
rand = "0.8"
reqwest = { version = "0.11", features = ["blocking", "json"] }
rpassword = "7"
serde = { version = "1", features = ["derive"] }
serde_json = "1"
serde_with = "2"
urlencoding = "2"
uuid = "1"
