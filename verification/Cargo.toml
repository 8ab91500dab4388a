[package]
name = "object_id"
version = "0.1.0"
edition = "2021"
publish = false

[dependencies]
hex = "0.4"
libc = "0.2"
rand = "0.9"
thiserror = "2"
