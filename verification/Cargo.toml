[package]
name = "zaciraci"
version = "0.1.0"
edition = "2021"
publish = false

[dependencies]
chrono = { version = "=0.4.45", default-features = false, features = ["alloc"] }
bigdecimal = "=0.4.11"
serde_json = "=1.0.154"
serde = { version = "1", features = ["derive"] }
clap = { version = "4", features = ["derive"] }
cron = "*"
