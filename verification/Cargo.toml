[package]
name = "max2_assets"
version = "0.1.0"
edition = "2021"
publish = false

[dependencies]
byteorder = "1"
glob = "0.3"
image = { version = "0.25", default-features = false, features = ["png"] }
