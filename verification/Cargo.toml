[package]
name = "ups"
version = "0.1.0"
edition = "2021"
publish = false

[dependencies]
crc32fast = "1"
memchr = "2"
structopt = "0.3"
thiserror = "1"
