[package]
name = "serde_yaml_core"
version = "0.1.0"
edition = "2021"
publish = false

[dependencies]
ryu = "1"
serde = { version = "1", default-features = false }
