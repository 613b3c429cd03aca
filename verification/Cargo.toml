[package]
name = "mosh"
version = "0.1.0"
edition = "2021"
publish = false

[dependencies]
aes = "0.8"
ocb3 = "0.1"
flate2 = "1"
getrandom = "0.3"
prost = "0.13"
libc = "0.2"
