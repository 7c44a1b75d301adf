[package]
name = "tibanna"
version = "0.1.0"
edition = "2021"
publish = false

[dependencies]
anyhow = "1"
thiserror = "2"
strum_macros = "0.27"
