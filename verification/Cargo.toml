[package]
name = "cargo_dead"
version = "0.1.0"
edition = "2021"
publish = false

[dependencies]
anyhow = "1"
cargo_metadata = "*"
clap = { version = "4", features = ["derive"] }
syn = { version = "2", features = ["full", "visit"] }
toml_edit = "*"
walkdir = "2"
