[package]
name = "keepass-extract"
version = "0.1.0"
edition = "2021"
publish = false

[dependencies]
argh = "=0.1.19"
keepass = "=0.10.6"
rpassword = "=7.5.4"
