[package]
name = "ubiblk"
version = "0.1.0"
edition = "2021"
publish = false

[dependencies]
aes = "=0.8.4"
aes-gcm = "=0.10.3"
aws-sdk-s3 = { version = "=1.157.0", default-features = false, features = ["rt-tokio", "default-https-client"] }
clap = { version = "=4.6.7", features = ["derive"] }
crc32fast = "=1.5.4"
crossbeam-channel = "=0.5.17"
env_logger = "=0.11.11"
libc = "=0.2.191"
log = "=0.4.35"
nix = { version = "=0.29.0", features = ["fs"] }
serde = { version = "=1.0.229", features = ["derive"] }
serde_json = "=1.0.154"
tokio = { version = "=1.54.1", features = ["rt", "rt-multi-thread", "sync", "time"] }
toml = "0.8"
xts-mode = "=0.5.1"
zstd = "=0.13.4"
