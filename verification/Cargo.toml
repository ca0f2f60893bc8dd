[package]
name = "playerinfo"
version = "0.1.0"
edition = "2021"
publish = false

[dependencies]
anyhow = "=1.0.104"
bitstream-io = "=1.10.0"
osrs-buffer = "=0.4.0"
slab = "=0.4.12"
