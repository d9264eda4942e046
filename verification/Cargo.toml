[package]
name = "virtual_branches"
version = "0.1.0"
edition = "2021"
publish = false

[dependencies]
itertools = "=0.13.0"
difference = "=2.0.0"
yrs = "=0.16.10"
anyhow = "=1.0.104"
git2 = "=0.19.0"
log = "=0.4.34"
serde = { version = "=1.0.229", features = ["derive"] }
serde_json = "=1.0.154"
toml = "=0.8.23"
