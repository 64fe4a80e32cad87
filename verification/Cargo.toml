[package]
name = "price_oracle"
version = "0.1.0"
edition = "2021"
publish = false

[dependencies]
sha2 = "0.10"
base64 = "0.22"
candid = "0.10"
serde = { version = "1", features = ["derive"] }
serde_bytes = "0.11"
ic-cdk = "0.16"
ic-cdk-macros = "0.16"
ic-cdk-timers = "0.10"
ic-stable-structures = "0.6"
