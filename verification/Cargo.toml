[package]
name = "sevenz_reader"
version = "0.1.0"
edition = "2021"
publish = false

[dependencies]
bitfield = "*"
byteorder = "1"
crc = "3"
either = "1"
snafu = "*"
