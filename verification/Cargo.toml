[package]
name = "zero-elo"
version = "0.1.0"
edition = "2021"
publish = false

[dependencies]
shakmaty = "=0.30.0"
clap = { version = "=4.5.61", features = ["derive"] }
