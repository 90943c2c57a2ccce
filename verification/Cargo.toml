[package]
name = "erasure"
version = "0.1.0"
edition = "2021"
publish = false

[dependencies]
aes = "0.8"
colored = "3"
ctr = "0.9"
elf = "*"
getrandom = "0.3"
hex = "0.4"
serialport = { version = "4", default-features = false }
