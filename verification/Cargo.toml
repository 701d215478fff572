[package]
name = "cargo-compatible"
version = "0.1.0"
edition = "2021"
publish = false

[dependencies]
semver = "1"
anyhow = "1"
cargo_metadata = "0.22"
clap = { version = "4", features = ["derive"] }
crates-index = { version = "3", default-features = false, features = ["sparse"] }
serde = { version = "1", features = ["derive"] }
serde_json = "1"
tempfile = "3"
toml_edit = "0.22"
tracing = "0.1"
walkdir = "2"
itertools = "0.14"
