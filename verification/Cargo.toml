[package]
name = "gradient_banner"
version = "0.1.0"
edition = "2021"
publish = false

[dependencies]
colored = "*"
colorgrad = "0.7"
figlet-rs = "0.1"
rand = "0.9"
