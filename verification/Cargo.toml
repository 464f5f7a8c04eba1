[package]
name = "efflux"
version = "0.1.0"
edition = "2021"
publish = false

[dependencies]
bytelines = { version = "=2.5.0", default-features = false }
