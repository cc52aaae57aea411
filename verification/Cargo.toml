[package]
name = "bigcalc"
version = "0.1.0"
edition = "2021"
publish = false

[dependencies]
anyhow = "1"
atty = "0.2"
compact_str = "*"
malachite = "*"
thiserror = "1"
