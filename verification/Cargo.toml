[package]
name = "crown_snark"
version = "0.1.0"
edition = "2021"
publish = false

[dependencies]
ark-bn254 = "=0.5.0"
ark-ff = "=0.5.0"
ark-serialize = "=0.5.0"
ark-std = "=0.5.0"
ark-crypto-primitives = { version = "=0.5.0", default-features = false, features = ["std", "sponge", "merlin"] }
ndarray = "=0.16.1"

[dev-dependencies]
ark-poly = "=0.5.0"
