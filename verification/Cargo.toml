[package]
name = "mental_poker"
version = "0.1.0"
edition = "2021"
publish = false

[dependencies]
anyhow = "=1.0.104"
thiserror = "=1.0.69"
rand = "=0.8.8"
ark-ff = "=0.3.0"
ark-std = "=0.3.0"
ark-serialize = "=0.3.0"
