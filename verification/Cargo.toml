[package]
name = "csv_helper"
version = "0.1.0"
edition = "2021"
publish = false

[dependencies]
anyhow = "*"
encoding_rs_io = "*"
