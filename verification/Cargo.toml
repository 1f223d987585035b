[package]
name = "api_mettwasser_xyz"
version = "0.1.0"
edition = "2021"
publish = false

[dependencies]
rand = "=0.8.8"
color_names = "=1.0.0"
image = "=0.25.10"
captcha-rs = "*"
