[package]
name = "jsonl_compactor"
version = "0.1.0"
edition = "2021"
publish = false

[dependencies]
anyhow = "1"
arrow = { version = "*", default-features = false }
clap = { version = "4", features = ["derive"] }
encoding_rs = "0.8"
flate2 = "1"
indicatif = "0.17"
oem_cp = "*"
parquet = "*"
rayon = "1"
serde_json = "1"
zstd = "0.13"
