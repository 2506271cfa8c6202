[package]
name = "parsley_csv"
version = "0.1.0"
edition = "2021"
publish = false

[dependencies]
anyhow = "*"
chrono = "*"
csv = "*"
rayon = "*"
regex = "*"
