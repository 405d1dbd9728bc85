[package]
name = "pocket"
version = "0.1.0"
edition = "2021"
publish = false

[dependencies]
dns-lookup = "*"
nanoserde = "*"
