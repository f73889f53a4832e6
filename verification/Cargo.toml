[package]
name = "rvsdg"
version = "0.1.0"
edition = "2021"
publish = false

[dependencies]
cranelift-entity = "=0.133.3"
xmlwriter = "=0.1.0"
