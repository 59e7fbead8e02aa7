[package]
name = "mepris"
version = "0.1.0"
edition = "2021"
publish = false

[dependencies]
anyhow = "*"
blake3 = "*"
clap = { version = "*", features = ["derive"] }
clap_complete = "*"
colored = "*"
comfy-table = "*"
directories = "*"
dotenvy = "*"
serde = { version = "*", features = ["derive"] }
serde_json = "*"
serde_yaml = "*"
tempfile = "*"
which = "*"
