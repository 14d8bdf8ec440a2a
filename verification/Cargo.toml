[package]
name = "teksilo-widgets"
version = "0.1.0"
edition = "2021"
publish = false

[dependencies]
uid = "=0.1.9"
