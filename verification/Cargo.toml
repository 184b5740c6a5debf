[package]
name = "cldj"
version = "0.1.0"
edition = "2021"
publish = false

[dependencies]
byteorder = "1"
num-complex = "0.2"
termion = "1.5"
tui = "0.9"
