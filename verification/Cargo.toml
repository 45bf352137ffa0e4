[package]
name = "fancy-garbling"
version = "0.1.0"
edition = "2021"
publish = false

[dependencies]
bincode = "1"
crossbeam = "0.8"
failure = "0.1"
serde = "1"
serde_derive = "1"
