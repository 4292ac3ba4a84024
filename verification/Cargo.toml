[package]
name = "hagoromo"
version = "0.1.0"
edition = "2021"
publish = false

[dependencies]
kurbo = "*"
serde = { version = "1", features = ["derive"] }
gluon = "0.18"
gluon_codegen = "0.18"
gluon_vm = "0.18"
