[package]
name = "pow_miner"
version = "0.1.0"
edition = "2021"
publish = false

[dependencies]
anyhow = "1"
chrono = "0.4"
colored = "2"
crossterm = "0.25"
dialoguer = "0.11"
ethers = { version = "2.0", default-features = false, features = ["abigen"] }
hex = "0.4"
indicatif = "0.17"
lazy_static = "1.4"
num-bigint = "0.4"
num_cpus = "1"
parking_lot = "0.12"
rayon = "1"
tiny-keccak = { version = "2.0", features = ["keccak"] }
tokio = { version = "1", features = ["rt-multi-thread", "macros", "time"] }
tui = "0.19"
