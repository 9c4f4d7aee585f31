[package]
name = "nanoserve"
version = "0.1.0"
edition = "2021"
publish = false

[dependencies]
argh = "=0.1.19"
compio = { version = "=0.19.2", features = ["macros", "signal", "fs", "net", "io"] }
