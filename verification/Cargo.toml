[package]
name = "weaver"
version = "0.1.0"
edition = "2021"
publish = false

[dependencies]
semver = "1"
textwrap = "0.16"
regex = "1"
url = "2"
serde = { version = "1", features = ["derive"] }
serde_yaml = "0.9"
ureq = { version = "2", default-features = false }
tera = { version = "1", default-features = false }
glob = "0.3"
walkdir = "2"
dirs = "5"
tempdir = "0.3"
thiserror = "1"
paris = "1"
rayon = "1"
