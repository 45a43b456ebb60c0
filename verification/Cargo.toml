[package]
name = "hs_rules"
version = "0.1.0"
edition = "2021"
publish = false

[dependencies]
rand = "0.8"
ron = "0.8"
serde = { version = "1", features = ["derive"] }
thiserror = "1"
godot = "*"
