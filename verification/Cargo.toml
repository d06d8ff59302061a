[package]
name = "sequencer_rs"
version = "0.1.0"
edition = "2021"
publish = false

[dependencies]
wmidi = "*"
cpal = "*"
coremidi = "*"
mach2 = "*"
rusty_link = "*"
lazy_static = "*"
