[package]
name = "tx_assembly"
version = "0.1.0"
edition = "2021"
publish = false

[dependencies]
cryptoxide = "0.4"
