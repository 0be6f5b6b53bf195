[package]
name = "business_value"
version = "0.1.0"
edition = "2021"
publish = false

[dependencies]
base64 = "0.13"
comfy-table = "*"
dialoguer = "*"
dotenv = "0.15"
reqwest = { version = "0.11", default-features = false, features = ["blocking", "json", "rustls-tls"] }
serde_json = "*"
structopt = "0.3"
