[package]
name = "massbit_dapi"
version = "0.1.0"
edition = "2021"
publish = false

[dependencies]
sp-runtime = "=49.0.0"
sp-arithmetic = "=29.0.0"
serde = { version = "=1.0.229", features = ["derive"] }
parity-scale-codec = { version = "=3.7.5", features = ["derive"] }
scale-info = { version = "=2.11.6", features = ["derive"] }
