[package]
name = "fragrance_catalog"
version = "0.1.0"
edition = "2021"
publish = false

[dependencies]
candid = "0.9"
ic-cdk = "0.11"
ic-stable-structures = "0.5"
serde = { version = "1", features = ["derive"] }
