[package]
name = "vroom"
version = "0.1.0"
edition = "2021"
publish = false

[dependencies]
tokio = { version = "*", features = ["rt", "rt-multi-thread", "sync", "time", "macros"] }
futures = "*"
libc = "*"
