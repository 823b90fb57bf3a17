[package]
name = "airdrop_merkle"
version = "0.1.0"
edition = "2021"
publish = false

[dependencies]
sha256 = { version = "*", default-features = false }
concordium-std = "*"
concordium-cis2 = "*"
