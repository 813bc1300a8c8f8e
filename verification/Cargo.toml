[package]
name = "vachat"
version = "0.1.0"
edition = "2021"
publish = false

[dependencies]
serde_json = "=1.0.154"
regex = "=1.13.1"
md-5 = "=0.10.6"
hmac = "=0.11.0"
sha2 = "=0.9.9"
fastrand = "=2.5.0"
percent-encoding = "=2.3.2"
chrono = { version = "=0.4.45", default-features = false, features = ["std", "clock"] }
serde = { version = "=1.0.229", features = ["derive"] }
toml = "0.8"
clap = { version = "4", features = ["derive"] }
envy = "0.4"
