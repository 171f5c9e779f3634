[package]
name = "bios_stage_2"
version = "0.1.0"
edition = "2021"
publish = false

[dependencies]
byteorder = { version = "1.4.3", default-features = false }
mbr-nostd = "0.1.0"
