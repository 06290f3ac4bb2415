[package]
name = "atomic_loans"
version = "0.1.0"
edition = "2021"
publish = false

[dependencies]
bls12_381 = { version = "=0.8.0", features = ["experimental"] }
secp256kfun = "=0.12.1"
sha2 = "=0.9.9"
rand = "=0.8.8"
ff = "=0.13.1"
group = "=0.13.0"
clap = { version = "=4.6.7", features = ["derive"] }
rayon = "=1.12.0"
