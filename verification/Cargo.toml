[package]
name = "vixi"
version = "0.1.0"
edition = "2021"
publish = false

[dependencies]
chrono = "*"
clap = "*"
dirs = "*"
fern = "*"
log = "*"
serde = "*"
serde_derive = "*"
serde_json = "*"
termion = "*"
toml = "*"
xi-core-lib = "*"
xi-rpc = "*"
