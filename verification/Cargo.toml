[package]
name = "vpp_plugin"
version = "0.2.1"
edition = "2021"
publish = false

[dependencies]
slab = "0.4"
futures = "0.3"
bitflags = "2"
