[package]
name = "nfl"
version = "0.1.0"
edition = "2021"
publish = false

[dependencies]
byteorder = "1"
memmap2 = "0.9"
thiserror = "1"
arrow2 = { version = "0.17", default-features = false }
