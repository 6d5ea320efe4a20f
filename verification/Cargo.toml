[package]
name = "ariadne"
version = "0.1.0"
edition = "2021"
publish = false

[dependencies]
yansi = "0.5"
unicode-width = "0.1"
strip-ansi-escapes = "0.2"
concolor = "0.1"
