[package]
name = "ptero_links"
version = "0.1.0"
edition = "2021"
publish = false

[dependencies]
anyhow = "1"
serde = { version = "1", features = ["derive"] }
serde_json = "1"
serde_yaml_ng = "*"
ureq = { version = "3", features = ["json"] }
uzers = "*"
