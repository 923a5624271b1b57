[package]
name = "beacon_ssz"
version = "0.1.0"
edition = "2021"
publish = false

[dependencies]
ethereum_ssz = "*"
ethereum_ssz_derive = "*"
typenum = "*"
