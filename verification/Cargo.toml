[package]
name = "label_conductor"
version = "0.1.0"
edition = "2021"
publish = false

[dependencies]
anyhow = "*"
clap = { version = "*", features = ["derive"] }
itertools = "*"
miette = { version = "*", features = ["fancy"] }
octorust = "*"
serde = { version = "*", features = ["derive"] }
serde_yaml = "*"
thiserror = "*"
tokio = { version = "*", features = ["macros", "rt-multi-thread"] }
tracing = "*"
tracing-subscriber = "*"
