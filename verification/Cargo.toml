[package]
name = "quest_app"
version = "0.1.0"
edition = "2021"
publish = false

[dependencies]
android_logger = "*"
base64 = "0.22"
futures-util = "0.3"
glam = "0.29"
image = { version = "0.25", default-features = false, features = ["png"] }
kira = "0.10"
log = "0.4"
mint = "0.5"
ndk = "*"
ndk-glue = "*"
openxr = "*"
serde = { version = "1", features = ["derive"] }
serde_json = "1"
tokio = { version = "1", features = ["rt", "net", "sync", "time", "macros"] }
tokio-tungstenite = "0.24"
