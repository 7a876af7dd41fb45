[package]
name = "kobold-data-shim"
version = "0.1.0"
edition = "2021"
publish = false

[dependencies]
gnucobol-rs = "=0.8.57"
serde = { version = "=1.0.229", features = ["derive"] }
rayon = "=1.12.0"
