[package]
name = "rtqc"
version = "0.1.0"
edition = "2021"
publish = false

[dependencies]
file-lock = "2"
fastq = "*"
polars = { version = "*", default-features = false, features = ["parquet"] }
