[package]
name = "next_api"
version = "0.1.0"
edition = "2021"
publish = false

[dependencies]
anyhow = "1"
serde = { version = "1", features = ["derive"] }
turbo-rcstr = "0.1.0"
