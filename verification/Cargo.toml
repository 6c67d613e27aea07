[package]
name = "lox_linein_bridge"
version = "0.1.0"
edition = "2021"
publish = false

[dependencies]
anyhow = "*"
cpal = "*"
rubato = "*"
tokio = { version = "*", features = ["full"] }
tokio-tungstenite = "*"
futures-util = "*"
reqwest = { version = "*", default-features = false, features = ["json"] }
url = "*"
uuid = { version = "*", features = ["v4"] }
mdns-sd = "*"
hostname = "*"
mac_address = "*"
get_if_addrs = "*"
tracing = "*"
tracing-subscriber = { version = "*", features = ["env-filter"] }
dialoguer = "*"

[dev-dependencies]
serde_json = "*"
toml = "*"
