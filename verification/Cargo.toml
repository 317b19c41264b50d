[package]
name = "erox"
version = "0.1.0"
edition = "2021"
publish = false

[dependencies]
md-5 = "0.10"
sha2 = "0.10"
base64 = "0.22"
rand = "0.9"
serde_json = "1"
reqwest = { version = "0.12", default-features = false, features = ["blocking"] }
tokio = { version = "1", features = ["process", "rt"] }
