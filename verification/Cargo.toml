[package]
name = "usbra"
version = "0.1.0"
edition = "2021"
publish = false

[dependencies]
async-io = "=2.6.0"
futures-lite = "=2.6.1"
pollster = "=1.0.1"
zbus = "=5.19.0"
