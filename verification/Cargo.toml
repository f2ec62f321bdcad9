[package]
name = "k2_viewer"
version = "0.1.0"
edition = "2021"
publish = false

[dependencies]
midly = "0.5"
midir = "0.10"
cpal = "0.15"
