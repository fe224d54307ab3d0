[package]
name = "rhymuweb"
version = "1.0.0"
edition = "2021"
publish = false

[dependencies]
rhymessage = "*"
rhymuri = "*"
flate2 = "*"
encoding_rs = "*"
