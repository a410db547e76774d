[package]
name = "vcf_diversity"
version = "0.1.0"
edition = "2021"
publish = false

[dependencies]
clap = { version = "4", features = ["derive"] }
colored = "2"
crossbeam-channel = "0.5"
csv = "1"
flate2 = "1"
indicatif = "0.17"
num_cpus = "1"
parking_lot = "0.12"
rand = "0.8"
rayon = "1"
