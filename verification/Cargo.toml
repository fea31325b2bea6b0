[package]
name = "pixelstore"
version = "0.1.0"
edition = "2021"
publish = false

[dependencies]
rapid-qoi = "*"
png = "0.17"
