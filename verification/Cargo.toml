[package]
name = "dns_core"
version = "0.1.0"
edition = "2021"
publish = false

[dependencies]
rand = "*"
regex = "*"
tiny_http = "*"
ascii = "*"
handlebars = "*"
rustc-serialize = "*"
