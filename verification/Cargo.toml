[package]
name = "salsa"
version = "0.1.0"
edition = "2021"
publish = false

[dependencies]
rustc-hash = "1"
smallvec = "1"
indexmap = "1"
parking_lot = "0.11"
crossbeam-utils = "0.8"
