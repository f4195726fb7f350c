[package]
name = "wmkit"
version = "0.1.0"
edition = "2021"
publish = false

[dependencies]
log = "0.4"
penrose = "=0.2.1"
simplelog = "=0.8.0"
