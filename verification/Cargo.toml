[package]
name = "issuer_hiding"
version = "0.1.0"
edition = "2021"
publish = false

[dependencies]
ark-bls12-381 = "0.5"
ark-ec = "0.5"
ark-ff = "0.5"
ark-serialize = "0.5"
ark-std = "0.5"
hex = "0.4"
rand = "0.8"
sha2 = "0.10"

[dev-dependencies]
num-bigint = "0.4"
