[package]
name = "elvanto_cli"
version = "0.1.0"
edition = "2021"
publish = false

[dependencies]
chrono = "0.4"
strsim = "0.11"
shlex = "1"
serde = { version = "1", features = ["derive"] }
serde_json = "1"
clap = { version = "4", features = ["derive"] }
tokio = { version = "1", features = ["rt", "macros"] }
reqwest = { version = "0.12", default-features = false, features = ["json", "rustls-tls"] }
keyring = "3"
rpassword = "7"
dotenvy = "0.15"
thiserror = "2"
