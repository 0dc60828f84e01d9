[package]
name = "kernel_vm"
version = "0.1.0"
edition = "2021"
publish = false

[dependencies]
bitflags = "=1.3.2"
limine = "=0.5.0"
spin = "=0.9.9"
