[package]
name = "kettle"
version = "0.1.0"
edition = "2021"
publish = false

[dependencies]
serde = { version = "1", features = ["derive"] }
serde_json = "1"
thiserror = "2"
unicode-segmentation = "1"
zeroize = "1"
reqwest = { version = "0.12", default-features = false, features = ["blocking", "rustls-tls"] }
security-framework = "3"
security-framework-sys = "2"
