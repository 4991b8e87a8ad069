[package]
name = "creditcoin_authority_manager"
version = "0.1.0"
edition = "2021"
publish = false

[dependencies]
subxt = "*"
tokio = { version = "*", features = ["rt-multi-thread", "macros"] }
clap = { version = "*", features = ["derive"] }
serde_json = "*"

[dev-dependencies]
parity-scale-codec = "*"
hex = "*"
