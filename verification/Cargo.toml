[package]
name = "openshmem_rs"
version = "0.1.0"
edition = "2021"
publish = false

[dependencies]
rustc-hash = "=2.1.3"
thiserror = "=2.0.21"
rayon = "=1.12.0"
syn = "=3.0.9"
quote = "=1.0.47"
proc-macro2 = "=1.0.107"
