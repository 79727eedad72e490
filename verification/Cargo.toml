[package]
name = "openraft"
version = "0.9.25"
edition = "2021"
publish = false

[dependencies]
anyerror = "0.1"
clap = { version = "4", features = ["derive"] }
rand = "0.8"
serde = { version = "1", features = ["derive"] }
