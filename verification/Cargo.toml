[package]
name = "spenv"
version = "0.1.0"
edition = "2021"
publish = false

[dependencies]
sha2 = "=0.10.9"
serde = { version = "1", features = ["derive"] }
serde_yaml = "0.9"
chrono = { version = "0.4", features = ["serde"] }
hostname = "0.4"
dirs = "5"
dunce = "1"
thiserror = "1"
miette = "7"
clap = { version = "4", features = ["derive", "env"] }
colored = "2"
tokio = { version = "1", features = ["rt-multi-thread", "macros"] }
tracing = "0.1"
tracing-subscriber = "0.3"
tempfile = "3"
