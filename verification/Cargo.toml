[package]
name = "sstable"
version = "0.1.0"
edition = "2021"
publish = false

[dependencies]
crc = "*"
snap = "*"

[dev-dependencies]
integer-encoding = "*"
