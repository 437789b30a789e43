[package]
name = "monochange"
version = "0.1.0"
edition = "2021"
publish = false

[dependencies]
regex = "1"
shlex = "1"
semver = "1"
serde = { version = "1", features = ["derive"] }
serde_json = "1"
serde_yaml_ng = "*"
toml_edit = "*"
clap = "4"

[dev-dependencies]
tempfile = "3"
