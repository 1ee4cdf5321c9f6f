[package]
name = "ayuc"
version = "0.1.0"
edition = "2021"
publish = false

[dependencies]
ariadne = "*"
bimap = "*"
lasso = "*"
slotmap = "*"
unicode-ident = "*"
unicode-properties = "*"
