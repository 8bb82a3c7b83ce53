[package]
name = "vdb"
version = "0.1.0"
edition = "2021"
publish = false

[dependencies]
libc = "*"
colored = "*"
rustyline = "*"
memmap = "*"

[dev-dependencies]
regex = "*"
