[package]
name = "lqdc"
version = "0.1.0"
edition = "2021"
publish = false

[dependencies]
codegem = "*"
clap = { version = "*", features = ["derive"] }
