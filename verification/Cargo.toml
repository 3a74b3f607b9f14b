[package]
name = "vsched"
version = "0.1.0"
edition = "2021"
publish = false

[dependencies]
axconfig = "0.3.0-preview.3"
queue = "0.3.1"
spin = "0.9.8"
spinlock = "0.1.2"
