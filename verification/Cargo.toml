[package]
name = "rufton"
version = "0.1.0"
edition = "2021"
publish = false

[dependencies]
noraft = "=0.7.1"
mio = { version = "=1.2.4", features = ["net", "os-poll"] }
