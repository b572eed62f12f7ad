[package]
name = "display-interface-i2c"
version = "0.1.0"
edition = "2021"
publish = false

[dependencies]
display-interface = "*"
embedded-hal-async = "*"
