[package]
name = "badbatch"
version = "0.1.0"
edition = "2021"
publish = false

[dependencies]
core_affinity = "0.8"
crossbeam-utils = "0.8"
log = "0.4"
parking_lot = "0.12"
thiserror = "2"
