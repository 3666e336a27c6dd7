[package]
name = "cargo_add"
version = "0.1.0"
edition = "2021"
publish = false

[dependencies]
anyhow = "=1.0.104"
cargo = "=0.66.0"
cargo-util = "=0.2.14"
clap = "=3.2.25"
indexmap = "=1.9.3"
kstring = "=2.0.2"
