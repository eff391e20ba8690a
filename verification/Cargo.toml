[package]
name = "scheduler"
version = "0.1.0"
edition = "2021"
publish = false

[dependencies]
anyhow = "1"
async-trait = "0.1"
chrono = "0.4"
secrecy = "0.10"
thiserror = "2"
tracing = "0.1"
