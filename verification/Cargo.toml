[package]
name = "audionimbus"
version = "0.1.0"
edition = "2021"
publish = false

[dependencies]
audionimbus-sys = "*"
bitflags = "2"
slotmap = "1"
