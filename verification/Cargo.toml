[package]
name = "tar_differential"
version = "0.1.0"
edition = "2021"
publish = false

[dependencies]
tar = "0.4"
tar-core = "*"
libfuzzer-sys = "0.4"
