[package]
name = "dog"
version = "0.1.0"
edition = "2021"
publish = false

[dependencies]
clap = "4"
fitsio = "0.21"
polars = { version = "0.46", features = ["parquet"] }
rayon = "1"
