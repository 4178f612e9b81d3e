[package]
name = "kuvatin"
version = "2.13.0"
edition = "2021"
publish = false

[dependencies]
anyhow = "1"
clap = { version = "4", features = ["derive", "string"] }
directories = "*"
serde = { version = "1", features = ["derive"] }
slint = { version = "1", default-features = false, features = ["compat-1-2", "std"] }
toml = "*"
