[package]
name = "treeboost"
version = "0.1.0"
edition = "2021"
publish = false

[dependencies]
bincode = { version = "2", features = ["serde"] }
crc32fast = "1"
csv = "1"
memmap2 = "0.9"
numpy = "*"
pyo3 = "*"
rand = "0.10"
rayon = "1"
rkyv = "0.8"
serde = { version = "1", features = ["derive"] }
serde_json = "1"
