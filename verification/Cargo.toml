[package]
name = "revdeck_index"
version = "0.1.0"
edition = "2021"
publish = false

[dependencies]
object = "0.36"
sha2 = "0.10"
