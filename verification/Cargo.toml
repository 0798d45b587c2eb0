[package]
name = "pass_provision"
version = "0.1.0"
edition = "2021"
publish = false

[dependencies]
dirs = "=7.0.0"
gpgme = "=0.11.0"
toml = "=0.5.11"
