[package]
name = "kitwin"
version = "0.1.0"
edition = "2021"
publish = false

[dependencies]
base64 = "0.22"
flate2 = "1"
clap = { version = "4", features = ["derive"] }
crossterm = "0.28"
cpal = "*"
ctrlc = "3"
libc = "0.2"
ringbuf = "0.4"
