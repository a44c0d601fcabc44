[package]
name = "rsheets"
version = "0.1.0"
edition = "2021"
publish = false

[dependencies]
dashmap = "=6.2.1"
once_cell = "=1.21.4"
rayon = "=1.12.0"
regex = "=1.13.1"
rsheet_lib = "=0.1.4"
