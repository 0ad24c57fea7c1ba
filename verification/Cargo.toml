[package]
name = "fcache"
version = "0.1.0"
edition = "2021"
publish = false

[dependencies]
blake3 = "1"
clap = { version = "4", features = ["derive"] }
directories = "*"
fs4 = "*"
rustix = { version = "1", features = ["fs", "process"] }
serde = { version = "1", features = ["derive"] }
serde_json = "1"
tempfile = "3"
thiserror = "2"
toml = "*"
