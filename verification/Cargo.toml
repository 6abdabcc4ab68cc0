[package]
name = "pdfmerge"
version = "0.1.0"
edition = "2021"
publish = false

[dependencies]
base64 = "*"
image = "*"
lopdf = "*"
mime_guess = "*"
