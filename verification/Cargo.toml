[package]
name = "burnbench"
version = "0.1.0"
edition = "2021"
publish = false

[dependencies]
serde_json = { version = "*", features = ["preserve_order"] }
dirs = "*"
reqwest = { version = "*", default-features = false, features = ["blocking"] }
