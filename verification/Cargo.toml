[package]
name = "zkregex"
version = "0.1.0"
edition = "2021"
publish = false

[dependencies]
regex-automata = "*"
halo2_proofs = "*"
