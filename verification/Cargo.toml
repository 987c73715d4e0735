[package]
name = "frame_allocator"
version = "0.1.0"
edition = "2021"
publish = false

[dependencies]
bitmap = "*"
multiboot2 = "*"
spin = "*"
