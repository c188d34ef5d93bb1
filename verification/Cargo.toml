[package]
name = "zkedit"
version = "0.1.0"
edition = "2021"
publish = false

[dependencies]
plonky2 = "=0.1.4"
plonky2_field = "=0.1.1"
anyhow = "=1.0.104"
serde = { version = "=1.0.229", features = ["derive"] }
rmp-serde = "=1.3.1"
image = "=0.25.10"
