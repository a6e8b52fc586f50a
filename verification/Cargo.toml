[package]
name = "dprint"
version = "0.1.0"
edition = "2021"
publish = false

[dependencies]
url = "=2.5.8"
anyhow = "=1.0.104"
serde = { version = "=1.0.229", features = ["derive"] }
serde_json = "=1.0.154"
dirs = "=7.0.0"
thiserror = "=2.0.21"
jsonc-parser = { version = "=0.34.0", features = ["cst", "preserve_order"] }
