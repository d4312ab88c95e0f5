[package]
name = "appchain_anchor"
version = "0.1.0"
edition = "2021"
publish = false

[dependencies]
serde = { version = "*", features = ["derive"] }
serde_json = "*"

[dev-dependencies]
parity-scale-codec = "*"
borsh = "*"
