[package]
name = "ghoul"
version = "0.1.0"
edition = "2021"
publish = false

[dependencies]
bitstream-io = "2"
bmp-rust = "*"
png = "0.17"
