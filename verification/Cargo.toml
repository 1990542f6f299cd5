[package]
name = "raw_util"
version = "0.1.0"
edition = "2021"
publish = false

[dependencies]
glow = "=0.12.3"
png = "=0.17.16"
riff-wave = "=0.1.3"
ringbuf = "=0.2.8"
