[package]
name = "hearth"
version = "0.1.0"
edition = "2021"
publish = false

[dependencies]
chacha20 = "=0.9.1"
sha2 = "=0.10.9"
opaque-ke = { version = "=3.0.0", features = ["argon2"] }
argon2 = "0.5"
rand = "=0.8.8"
tokio = { version = "=1.54.1", features = ["io-util", "net", "rt", "rt-multi-thread", "macros", "signal", "sync"] }
bytemuck = "=1.25.2"
serde = { version = "=1.0.229", features = ["derive"] }
toml = "=0.8.23"
anyhow = "=1.0.104"
tracing = "=0.1.44"
tracing-subscriber = "=0.3.23"
directories = "=5.0.1"
clap = { version = "=4.6.7", features = ["derive"] }
