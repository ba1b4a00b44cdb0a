[package]
name = "beryl"
version = "0.1.0"
edition = "2021"
publish = false

[dependencies]
bilge = "=0.2.0"
limine = "=0.5.0"
log = "=0.4.34"
psf2 = "=0.4.0"
rustc-demangle = "=0.1.28"
spin = "=0.9.9"
vte = "=0.13.1"
xmas-elf = "=0.9.1"
