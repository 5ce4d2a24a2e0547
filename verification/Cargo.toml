[package]
name = "trng_driver"
version = "0.1.0"
edition = "2021"
publish = false

[dependencies]
rand_core = "0.6"
cortex-m = "0.7"
embedded-hal = { version = "0.2", features = ["unproven"] }
