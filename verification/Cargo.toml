[package]
name = "maikor_file"
version = "0.1.0"
edition = "2021"
publish = false

[dependencies]
maikor-platform = "=0.1.27"
serde = { version = "=1.0.229", features = ["derive"] }
serde_json = "=1.0.154"
thiserror = "=1.0.69"
