[package]
name = "functional_commitment"
version = "0.1.0"
edition = "2021"
publish = false

[dependencies]
ark-bls12-381 = "=0.3.0"
ark-bn254 = "=0.3.0"
ark-ff = "=0.3.0"
ark-poly = "=0.3.0"
ark-relations = "=0.3.0"
