[package]
name = "fillrule"
version = "0.1.0"
edition = "2021"
publish = false

[dependencies]
norad = "=0.19.2"
tiny-skia = "=0.12.0"

[dev-dependencies]
fontir = "=1.0.0"
kurbo = "=0.13.1"
