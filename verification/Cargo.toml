[package]
name = "gpm2op"
version = "0.1.0"
edition = "2021"
publish = false

[dependencies]
csv = "1.4.0"
url = "2.5.8"
serde_json = "1.0.154"
serde = { version = "1.0.229", features = ["derive"] }
clap = { version = "4.6.7", features = ["derive"] }
clap_complete = "4.6.11"
comfy-table = "7.2.2"
tempfile = "3.27.0"
thiserror = "2.0.21"
