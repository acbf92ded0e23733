[package]
name = "guest_runtime"
version = "0.1.0"
edition = "2021"
publish = false

[dependencies]
risc0-zkvm = { version = "=0.12.0", default-features = false, features = ["std"] }
rlibc = "=1.0.0"
