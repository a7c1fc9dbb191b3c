[package]
name = "mama"
version = "0.1.0"
edition = "2021"
publish = false

[dependencies]
colored = "=3.1.1"
dirs = "=7.0.0"
gregorian = "=0.2.4"
terminal_size = "=0.4.4"
