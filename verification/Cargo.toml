[package]
name = "rtic"
version = "0.1.0"
edition = "2021"
publish = false

[dependencies]
critical-section = { version = "=1.2.0", features = ["std"] }
esp32c6 = "=0.16.0"
riscv = "=0.16.1"
