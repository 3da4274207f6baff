[package]
name = "ezsql"
version = "0.1.0"
edition = "2021"
publish = false

[dependencies]
indexmap = "2"
syn = "2"
proc-macro2 = "1"
quote = "1"
clap = "4"
once_cell = "1"
serde_yaml = "0.9"
