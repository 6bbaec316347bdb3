[package]
name = "zkboo_slhdsa"
version = "1.0.0"
edition = "2021"
publish = false

[dependencies]
sha2 = "=0.10.9"
sha3 = "=0.10.9"

[dev-dependencies]
signature = "=2.3.0-pre.4"
slh-dsa = "=0.1.0"
