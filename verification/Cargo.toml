[package]
name = "tapoctl"
version = "0.1.0"
edition = "2021"
publish = false

[dependencies]
anyhow = "=1.0.104"
chrono = { version = "=0.4.45", features = ["serde"] }
clap = { version = "=4.6.7", features = ["derive"] }
dialoguer = "=0.12.0"
if-addrs = "=0.15.0"
keyring = { version = "=3.6.3", features = ["linux-native"] }
rpassword = "=7.5.4"
serde = { version = "=1.0.229", features = ["derive"] }
tapo = "=0.9.0"
tokio = { version = "=1.54.1", features = ["macros", "rt-multi-thread"] }
toml = "=1.1.8"
