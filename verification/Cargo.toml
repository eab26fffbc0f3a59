[package]
name = "fast-transcript"
version = "1.0.3"
edition = "2021"
publish = false

[dependencies]
anyhow = "=1.0.104"
directories = "=6.0.0"
flate2 = "=1.1.10"
reqwest = { version = "=0.12.28", default-features = false, features = ["blocking", "rustls-tls"] }
serde = { version = "=1.0.229", features = ["derive"] }
serde_json = "=1.0.154"
tar = "=0.4.46"
tempfile = "=3.27.0"
transcribe-rs = { version = "=0.3.12", features = ["onnx"] }
