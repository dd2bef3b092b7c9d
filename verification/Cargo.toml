[package]
name = "dimooper"
version = "0.1.0"
edition = "2021"
publish = false

[dependencies]
num = "=0.4.3"
rustc-serialize = "=0.3.25"
portmidi = "*"
sdl2 = "*"
