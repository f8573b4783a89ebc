[package]
name = "figgie"
version = "0.1.0"
edition = "2021"
publish = false

[dependencies]
actix-web = "=4.15.0"
actix-cors = "=0.7.2"
tokio = { version = "=1.53.2", features = ["full"] }
tokio-tungstenite = "=0.26.2"
futures-util = "=0.3.34"
kanal = "=0.1.1"
core_affinity = "=0.8.3"
rand = "=0.8.8"
random_word = { version = "=0.4.3", features = ["en"] }
serde = { version = "=1.0.229", features = ["derive"] }
serde_json = "=1.0.151"

[dev-dependencies]
