[package]
name = "hardknee"
version = "0.1.0"
edition = "2021"
publish = false

[dependencies]
vst2 = "=0.0.1"
conrod = "0.53"
simplelog = "=0.4.4"
log = "=0.3.9"
