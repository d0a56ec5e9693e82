[package]
name = "f1_logic"
version = "0.1.0"
edition = "2021"
publish = false

[dependencies]
heapless = "0.8"
embedded-hal = "1"
embedded-hal-async = "1"
embassy-sync = "*"
embassy-time = "*"
rand_core = "0.6"
csv = "1"
