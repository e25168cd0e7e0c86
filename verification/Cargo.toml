[package]
name = "cgmap"
version = "0.1.0"
edition = "2021"
publish = false

[dependencies]
csv = "=1.4.0"
getopts = "=0.2.24"
