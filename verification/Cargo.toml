[package]
name = "machine_chips"
version = "0.1.0"
edition = "2021"
publish = false

[dependencies]
sp1-core-executor = "3"
sp1-stark = "3"
sp1-curves = "3"
sp1-derive = "3"
p3-air = "0.1.4-succinct"
p3-field = "0.1.4-succinct"
p3-matrix = "0.1.4-succinct"
p3-keccak-air = "0.1.4-succinct"
p3-baby-bear = "0.1.4-succinct"
p3-maybe-rayon = "0.1.4-succinct"
generic-array = "*"
typenum = "*"
num = "*"
