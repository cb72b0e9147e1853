[package]
name = "archive_manifest"
version = "0.1.0"
edition = "2021"
publish = false

[dependencies]
camino = "1"
hash40 = "*"
ruzstd = "*"
zstd = "*"
semver = "1"
thiserror = "1"
