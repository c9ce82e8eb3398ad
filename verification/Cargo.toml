[package]
name = "swipy_engine"
version = "0.1.0"
edition = "2021"
publish = false

[dependencies]
rand = "*"
fnv = "*"
clap = "*"
indicatif = "*"
serde = "*"
serde_derive = "*"
serde_json = "*"
statistical = "*"
strum = "*"
strum_macros = "*"
