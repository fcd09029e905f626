[package]
name = "vcs2git"
version = "0.1.0"
edition = "2021"
publish = false

[dependencies]
url = "*"
git2 = "*"
serde = { version = "*", features = ["derive"] }
serde_yaml = "*"
indexmap = { version = "*", features = ["serde"] }
anyhow = "*"
indicatif = "*"
tracing = "*"
tracing-subscriber = "*"
