[package]
name = "snapsafe"
version = "0.1.0"
edition = "2021"
publish = false

[dependencies]
aes-gcm = "0.10"
argon2 = "0.5"
brotli2 = "0.3"
chrono = { version = "0.4", features = ["serde"] }
clap = { version = "4", features = ["derive"] }
dirs = "5"
flate2 = "1"
hex = "0.4"
rand = "0.8"
rpassword = "7"
serde = { version = "1", features = ["derive"] }
serde_json = "1"
sha2 = "0.10"
toml = "0.8"
uuid = { version = "1", features = ["v4"] }
walkdir = "2"
xz2 = "0.1"
zeroize = "1"
zstd = "0.13"
