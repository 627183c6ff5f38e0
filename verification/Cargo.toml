[package]
name = "claudio"
version = "0.1.0"
edition = "2021"
publish = false

[dependencies]
clap = { version = "4", features = ["derive"] }
clap_complete = "4"
colored = "*"
comfy-table = "*"
directories = "*"
serde = { version = "1", features = ["derive"] }
serde_json = "1"
tempfile = "3"
