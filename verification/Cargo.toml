[package]
name = "rip"
version = "0.1.0"
edition = "2021"
publish = false

[dependencies]
clap = "=2.34.0"
error-chain = "=0.12.4"
walkdir = "=2.5.0"
