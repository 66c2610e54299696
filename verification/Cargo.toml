[package]
name = "rusty_esp_mid"
version = "0.1.0"
edition = "2021"
publish = false

[dependencies]
p256 = { version = "0.13", features = ["ecdsa", "ecdh"] }
sha2 = "0.10"
bs58 = "0.5"
base64 = "0.22"
rusty_esp_core = "*"
mid-signer = "*"
mid-types = "*"
serde = { version = "1", features = ["derive"] }
serde_json = "1"
