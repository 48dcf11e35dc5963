[package]
name = "isola"
version = "0.1.0"
edition = "2021"
publish = false

[dependencies]
minicbor = { version = "=2.3.1", features = ["std"] }
rand = "=0.8.8"
sha2 = "=0.10.9"
url = "=2.5.8"
serde = { version = "=1.0.229", features = ["derive"] }
serde_json = { version = "=1.0.154", features = ["raw_value", "preserve_order"] }
jsonwebtoken = { version = "=10.4.0", default-features = false, features = ["rust_crypto"] }
