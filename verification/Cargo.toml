[package]
name = "snarkvm_debug"
version = "0.1.0"
edition = "2021"
publish = false

[dependencies]
indexmap = { version = "1", features = ["serde-1"] }
serde = { version = "1", features = ["derive"] }
libloading = "0.7"
libc = "0.2"
anyhow = "1"
