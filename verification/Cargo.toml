[package]
name = "lad_core"
version = "0.1.0"
edition = "2021"
publish = false

[dependencies]
regex = "=1.13.1"
url = "=2.5.8"
serde = { version = "=1.0.229", features = ["derive"] }
serde_json = "=1.0.154"
sha2 = "=0.10.9"
getrandom = "=0.3.4"
qrcode = { version = "=0.14.1", default-features = false }
hostname = "=0.4.2"
mdns-sd = "=0.21.7"
tokio = { version = "=1.54.1", features = ["rt-multi-thread", "macros", "net", "io-std", "io-util", "time"] }
tokio-tungstenite = "=0.30.0"
futures = "=0.3.34"
http = "=1.5.0"
clap = { version = "=4.6.7", features = ["derive"] }
jaq-core = "*"
jaq-std = "*"
jaq-json = "*"
