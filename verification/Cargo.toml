[package]
name = "kernel"
version = "0.1.0"
edition = "2021"
publish = false

[dependencies]
noto-sans-mono-bitmap = "=0.3.2"
limine = "=0.5.0"
spin = "=0.12.3"
x86 = "=0.52.0"
x86_64 = { version = "=0.15.5", default-features = false, features = ["instructions"] }
pic8259 = "=0.11.0"
lazy_static = "=1.5.1"
