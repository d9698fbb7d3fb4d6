[package]
name = "zssp"
version = "0.1.0"
edition = "2021"
publish = false

[dependencies]
arrayvec = "=0.7.8"
pqc_kyber = { version = "=0.4.0", features = ["kyber1024", "std"] }
rand_core = { version = "=0.6.4", features = ["getrandom"] }
zeroize = "=1.9.1"
