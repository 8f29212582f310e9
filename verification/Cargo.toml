[package]
name = "manifest_edit"
version = "0.1.0"
edition = "2021"
publish = false

[dependencies]
toml_edit = "0.14"
