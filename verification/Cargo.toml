[package]
name = "sunwave"
version = "0.1.0"
edition = "2021"
publish = false

[dependencies]
clap = "4"
pest = "2"
pest_derive = "2"
libc = "0.2"
