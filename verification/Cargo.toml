[package]
name = "hashattr"
version = "0.1.0"
edition = "2021"
publish = false

[dependencies]
openssl = "0.10"
libc = "0.2"
clap = { version = "4", features = ["derive"] }

[dev-dependencies]
tempfile = "3"
