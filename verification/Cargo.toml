[package]
name = "jitbridge"
version = "0.1.0"
edition = "2021"
publish = false

[dependencies]
dynasmrt = "*"
ffi-support = "*"
