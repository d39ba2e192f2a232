[package]
name = "etty"
version = "0.1.0"
edition = "2021"
publish = false

[dependencies]
crossbeam = "*"
rustix = { version = "*", features = ["termios", "stdio"] }
