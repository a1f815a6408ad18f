[package]
name = "poslib"
version = "0.1.0"
edition = "2021"
publish = false

[dependencies]
fixed-queue = "*"
embedded-graphics = "0.7"
embedded-text = "0.5"
bitmap-font = "0.2"
profont = "0.5"
tinytga = "0.4"
lazy_static = "1.4"
