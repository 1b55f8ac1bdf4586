[package]
name = "seqdupes"
version = "0.1.0"
edition = "2021"
publish = false

[dependencies]
bio = "*"
serde_json = "*"
clap = "*"
flate2 = "*"
