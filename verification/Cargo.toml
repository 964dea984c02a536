[package]
name = "unixtract"
version = "0.1.0"
edition = "2021"
publish = false

[dependencies]
aes = "=0.8.4"
cbc = "=0.1.2"
ecb = "=0.1.2"
md5 = "=0.7.0"
hex = "=0.4.3"
rsa = { version = "=0.9.10", features = ["hazmat"] }
flate2 = "=1.1.10"
binrw = "=0.14.2"
minilzo-rs = "=0.6.1"
zstd = "=0.13.4"
sevenz-rust2 = "=0.24.2"
clap = { version = "=4.6.7", features = ["derive"] }
env_logger = "=0.11.11"
log = "=0.4.35"
thiserror = "=2.0.21"
