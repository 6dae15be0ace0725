[package]
name = "mndp"
version = "0.1.0"
edition = "2021"
publish = false

[dependencies]
macaddr = "*"

[dev-dependencies]
hex = "*"
