[package]
name = "sonde"
version = "0.1.0"
edition = "2021"
publish = false

[dependencies]
anyhow = "1"
crc = "3"
image = { version = "0.25", default-features = false, features = ["jpeg", "png"] }
num-complex = "0.4"
rand = "0.8"
rand_chacha = "0.3"
rustfft = "6"
serde = { version = "1", features = ["derive"] }
thiserror = "1"
