[package]
name = "backstop_bootstrapper"
version = "0.1.0"
edition = "2021"
publish = false

[dependencies]
soroban-fixed-point-math = "=1.5.0"
soroban-sdk = "=25.3.2"
blend-contract-sdk = "=2.25.0"
