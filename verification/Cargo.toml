[package]
name = "kernel"
version = "0.1.0"
edition = "2021"
publish = false

[dependencies]
limine = "=0.5.0"
spin = "=0.9.9"
talc = { version = "=4.4.3", default-features = false, features = ["lock_api"] }
lazy_static = { version = "=1.5.1", features = ["spin_no_std"] }
pc-keyboard = "=0.9.0"
