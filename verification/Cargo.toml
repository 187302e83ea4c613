[package]
name = "six7"
version = "0.1.0"
edition = "2021"
publish = false

[dependencies]
rand = "*"
hex = "*"
tokio = { version = "*", features = ["full"] }
clap = { version = "*", features = ["derive"] }
anyhow = "*"
tracing-subscriber = { version = "*", features = ["env-filter"] }

[dev-dependencies]
postcard = { version = "*", features = ["alloc"] }
