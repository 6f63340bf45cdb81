[package]
name = "lsystem"
version = "0.1.0"
edition = "2021"

[dependencies]
nannou = "0.19"
