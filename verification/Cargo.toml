[package]
name = "cargo-rustics"
version = "0.1.0"
edition = "2021"
publish = false

[dependencies]
anyhow = "=1.0.104"
cargo_metadata = "=0.23.1"
clap = { version = "=4.6.7", features = ["derive"] }
ignore = "=0.4.34"
proc-macro2 = { version = "=1.0.107", features = ["span-locations"] }
quote = "=1.0.47"
ra_ap_syntax = "=0.0.330"
serde = { version = "=1.0.229", features = ["derive"] }
serde_json = "=1.0.154"
sha2 = "=0.10.9"
syn = { version = "=2.0.119", features = ["full", "visit"] }
toml = "=1.1.8"
