[package]
name = "rwr_toolbox"
version = "0.1.0"
edition = "2021"
publish = false

[dependencies]
quick-xml = "*"
semver = "*"
base64 = "*"
serde = { version = "*", features = ["derive"] }
serde_json = "*"
walkdir = "*"
rayon = "*"
dirs = "*"
