[package]
name = "harmony_hacker"
version = "0.1.0"
edition = "2021"
publish = false

[dependencies]
symphonia = "=0.5.5"
realfft = "=3.5.0"
