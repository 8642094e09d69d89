[package]
name = "pinentry_bitwarden"
version = "0.1.0"
edition = "2021"
publish = false

[dependencies]
anyhow = "*"
directories = "*"
expanduser = "*"
fork = "*"
serde = { version = "*", features = ["derive"] }
serde_yaml = "*"
tokio = { version = "*", features = ["rt", "rt-multi-thread", "macros", "process", "net", "io-util", "time"] }
which = "*"
