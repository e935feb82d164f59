[package]
name = "lettersmith"
version = "0.1.0"
edition = "2021"
publish = false

[dependencies]
chrono = "*"
clap = { version = "*", features = ["derive"] }
glob = "*"
pulldown-cmark = "*"
serde = { version = "*", features = ["derive"] }
serde_json = "*"
serde_yml = "*"
