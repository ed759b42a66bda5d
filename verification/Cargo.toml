[package]
name = "ksng"
version = "0.1.0"
edition = "2021"
publish = false

[dependencies]
uuid = { version = "=1.29.0", features = ["v4"] }
similar = "=2.7.0"
regex = "=1.13.1"
serde = { version = "=1.0.229", features = ["derive"] }
serde_json = "=1.0.154"
chrono = "=0.4.45"
tar = "=0.4.46"
infer = "=0.22.0"
size = "*"
directories = "*"
