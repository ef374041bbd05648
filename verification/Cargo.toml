[package]
name = "xiprfs-fae-tools"
version = "0.1.0"
edition = "2021"
publish = false

[dependencies]
anyhow = "1"
crc32fast = "1"
goblin = "*"
object = "*"
tempfile = "3"
