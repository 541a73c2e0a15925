[package]
name = "dauntless"
version = "0.1.0"
edition = "2021"
publish = false

[dependencies]
ndarray = "*"
num-complex = "*"
rayon = "*"
rustfft = "*"
serde = { version = "*", features = ["derive"] }
