[package]
name = "view_latency"
version = "0.1.0"
edition = "2021"
publish = false

[dependencies]
anyhow = "=1.0.104"
clap = { version = "=4.5.61", features = ["derive"] }
spacetimedb-sdk = "=2.6.1"
spacetimedb = "=2.6.1"
