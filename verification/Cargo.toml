[package]
name = "mc_cluster"
version = "0.1.0"
edition = "2021"
publish = false

[dependencies]
rand = { version = "0.8", features = ["small_rng"] }
serde = { version = "1", features = ["derive"] }
serde_json = "1"
serde_with = "3"
clap = { version = "4", features = ["derive"] }
csv = "1"
anyhow = "1"
chemfiles = "0.10"
vasp-poscar = "0.3"
