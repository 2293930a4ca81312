[package]
name = "afterburner"
version = "0.1.0"
edition = "2021"
publish = false

[dependencies]
anyhow = "*"
aya = "*"
clap = { version = "*", features = ["derive"] }
libc = "*"
quiche = "*"
signal-hook = "*"
