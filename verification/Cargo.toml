[package]
name = "mmap_append"
version = "0.1.0"
edition = "2021"
publish = false

[dependencies]
stable_deref_trait = "1"
