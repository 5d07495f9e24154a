[package]
name = "lispcalc"
version = "0.1.0"
edition = "2021"
publish = false

[dependencies]
rustc_apfloat = "=0.2.3"
astro-float = "=0.9.6"
rustyline = "=18.0.1"
