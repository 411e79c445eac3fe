[package]
name = "getting-farted-on"
version = "0.1.0"
edition = "2021"
publish = false

[dependencies]
serde = { version = "1", features = ["derive"] }
serde_json = "1"
bincode = "1"
anyhow = "1"
roxmltree = "0.21"
log = "0.4"
