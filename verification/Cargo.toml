[package]
name = "clave"
version = "0.1.0"
edition = "2021"
publish = false

[dependencies]
chacha20 = { version = "=0.10.2", features = ["xchacha"] }
sha3 = "=0.12.0"
clap = { version = "=4.6.7", features = ["derive"] }
log = "=0.4.34"
rpassword = "=7.5.4"
simplelog = "=0.12.2"
thiserror = "=2.0.21"
