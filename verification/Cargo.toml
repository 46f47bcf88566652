[package]
name = "falcotcp"
version = "0.1.0"
edition = "2021"
publish = false

[dependencies]
aes-gcm = "0.10"
flate2 = "1"
lz4_flex = "*"
rand = "*"
xz2 = "0.1"
zstd = "*"
