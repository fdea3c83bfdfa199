[package]
name = "takopack_local"
version = "0.1.0"
edition = "2021"
publish = false

[dependencies]
anyhow = "1"
flate2 = "1"
log = "0.4"
semver = "1"
sha2 = "0.10"
tar = "0.4"
tempfile = "3"
toml = "0.9"
ureq = "2"
