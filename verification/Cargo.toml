[package]
name = "gywadmin-pki"
version = "0.1.0"
edition = "2021"
publish = false

[dependencies]
clap = { version = "4", features = ["derive"] }
getrandom = "0.3"
serde = { version = "1", features = ["derive"] }
serde_json = "1"
time = "0.3"
x509-parser = "*"
