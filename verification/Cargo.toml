[package]
name = "ferveo_tdec"
version = "0.1.0"
edition = "2021"
publish = false

[dependencies]
ark-bls12-381 = "*"
ark-ec = "*"
ark-ff = "*"
ark-poly = "*"
ark-serialize = "*"
ark-std = "*"
chacha20poly1305 = "0.10"
sha2 = "0.10"
rand = "0.8"
parity-scale-codec = { version = "3", default-features = false, features = ["std"] }
serde = { version = "1", features = ["derive"] }
bincode = "1"
hex = "0.4"
const-hex = "1"
thiserror = "1"

[dev-dependencies]
serde_json = "1"
