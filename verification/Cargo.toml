[package]
name = "apkfetch"
version = "0.1.0"
edition = "2021"
publish = false

[dependencies]
futures = "*"
reqwest = { version = "*", default-features = false }
tokio = { version = "*", features = ["rt", "time"] }
