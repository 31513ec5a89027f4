[package]
name = "prismfetch"
version = "1.0.0"
edition = "2021"
publish = false

[dependencies]
sysinfo = "0.30"
