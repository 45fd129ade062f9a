[package]
name = "meme_icrc"
version = "0.1.0"
edition = "2021"
publish = false

[dependencies]
candid = "0.10"
hex = "0.4"
ic-cdk = "0.13"
serde = { version = "1", features = ["derive"] }
