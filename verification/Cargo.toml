[package]
name = "optionfiles"
version = "0.2.2"
edition = "2021"
publish = false

[dependencies]
anyhow = "=1.0.104"
clap = { version = "4", features = ["derive"] }
crossterm = "*"
optionSDK = "*"
