[package]
name = "proofhub"
version = "0.1.0"
edition = "2021"
publish = false

[dependencies]
blake2 = "0.10"
sha2 = "0.10"
curve25519-dalek = "4"
curve25519-dalek-ng = "4"
bulletproofs = { version = "4", default-features = false, features = ["std"] }
merlin = "3"
rand_core = "0.6"
parity-scale-codec = { version = "3", features = ["derive"] }
scale-info = { version = "2", features = ["derive"] }
sp-crypto-hashing = "0.1"
sp-io = "*"
sp-core = "*"
sp-runtime = "*"
frame-support = "*"
frame-system = "*"
