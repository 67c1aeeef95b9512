[package]
name = "rusty_browser"
version = "0.1.0"
edition = "2021"
publish = false

[dependencies]
url = "2"
sha2 = "0.10"
base64 = "0.22"
ureq = "2"
raqote = "0.8"
font-kit = "0.13"
ab_glyph = "0.2"
