[package]
name = "generic_ringbuffers"
version = "0.1.0"
edition = "2021"
publish = false

[dependencies]
rand = "0.9"
tokio = { version = "1", features = ["macros", "rt-multi-thread", "sync", "time"] }
