[package]
name = "ahrs_stream"
version = "0.1.0"
edition = "2021"
publish = false

[dependencies]
crc_all = "*"
serial2 = "*"
