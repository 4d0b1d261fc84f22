[package]
name = "rudy"
version = "0.1.0"
edition = "2021"
publish = false

[dependencies]
rustls-pemfile = "=1.0.4"
openssl = "=0.10.81"
crossterm = "=0.29.0"
tracing = "=0.1.44"
tracing-subscriber = "=0.3.23"
