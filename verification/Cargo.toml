[package]
name = "apache_beam"
version = "0.1.0"
edition = "2021"
publish = false

[dependencies]
bytes = "1"
integer-encoding = "3"
rand = "0.8"
once_cell = "1"
