[package]
name = "stark_vrf"
version = "0.1.0"
edition = "2021"
publish = false

[dependencies]
num-bigint = "=0.4.8"
starknet-crypto = "=0.6.2"
starknet-curve = "=0.4.2"
starknet-ff = "=0.3.7"
