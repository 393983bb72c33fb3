[package]
name = "slh_verify"
version = "0.1.0"
edition = "2021"
publish = false

[dependencies]
sha2 = "=0.10.9"

[dev-dependencies]
slh-dsa = "=0.1.0"
signature = "=2.3.0-pre.4"
