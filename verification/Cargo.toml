[package]
name = "ssh_key_sync"
version = "0.1.0"
edition = "2021"
publish = false

[dependencies]
hmac = "0.12"
sha2 = "0.10"
clap = { version = "4", features = ["derive"] }
