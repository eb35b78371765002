[package]
name = "orb"
version = "0.1.0"
edition = "2021"
publish = false

[dependencies]
async-executor = "1"
async-io = "2"
blocking = "1"
futures-lite = "2"
pin-project-lite = "0.2"
tokio = { version = "1", default-features = false, features = ["rt", "rt-multi-thread", "net", "time"] }
