[package]
name = "nvmbuilder"
version = "0.1.0"
edition = "2021"
publish = false

[dependencies]
bin_file = "*"
calamine = "*"
clap = { version = "*", features = ["derive"] }
comfy-table = "*"
ihex = "*"
indexmap = { version = "*", features = ["serde"] }
rayon = "*"
serde = { version = "*", features = ["derive"] }
serde_json = "*"
serde_yaml = "*"
thiserror = "*"
toml = "*"
