[package]
name = "cleanroom"
version = "0.1.0"
edition = "2021"
publish = false

[dependencies]
chrono = "*"
uuid = { version = "*", features = ["v4"] }
tempfile = "*"
toml = "*"
serde = { version = "*", features = ["derive"] }
nix = { version = "*", features = ["user"] }
tokio = { version = "*", features = ["rt", "macros", "process", "io-util"] }
