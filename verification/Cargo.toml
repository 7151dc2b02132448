[package]
name = "file_tools"
version = "0.1.0"
edition = "2021"
publish = false

[dependencies]
glob = "0.3"
jwalk = "0.8"
sha2 = "0.10"
flate2 = "1"
lz4_flex = "0.11"
zstd = "0.13"
age = "0.11"
rayon = "1"
