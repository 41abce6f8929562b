[package]
name = "diffpatch"
version = "0.1.0"
edition = "2021"
publish = false

[dependencies]
color-eyre = "=0.6.5"
diffy = { version = "=0.5.2", features = ["color"] }
libc = "=0.2.191"
nu-ansi-term = "=0.50.3"
termion = "=4.0.6"
walkdir = "=2.5.0"
