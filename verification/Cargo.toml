[package]
name = "tolling_agreement_valuation"
version = "0.1.0"
edition = "2021"
publish = false

[dependencies]
rayon = "1"
anyhow = "1"
clap = { version = "4", features = ["derive"] }
csv = "1"
serde = { version = "1", features = ["derive"] }
serde_json = "1"
chrono = "0.4"
rand = "0.8"
rand_distr = "0.4"
