[package]
name = "feacomp"
version = "0.1.0"
edition = "2021"
publish = false

[dependencies]
fea-rs = "=1.0.0"
font-types = "=0.12.6"
fontir = "=1.0.0"
kurbo = "=0.13.1"
log = "=0.4.34"
write-fonts = "=0.52.0"
