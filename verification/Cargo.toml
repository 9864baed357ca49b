[package]
name = "cloud_image_index"
version = "0.1.0"
edition = "2021"
publish = false

[dependencies]
anyhow = "*"
async-trait = "*"
hex = "*"
indicatif = "*"
reqwest = { version = "*", default-features = false, features = ["rustls-tls"] }
serde = { version = "*", features = ["derive"] }
serde_json = "*"
sha2 = "*"
termenu = "*"
thiserror = "*"
tokio = { version = "*", features = ["rt-multi-thread", "macros"] }
url = "*"
