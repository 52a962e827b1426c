[package]
name = "rust4u_backend"
version = "0.1.0"
edition = "2021"
publish = false

[dependencies]
bcrypt = "=0.19.3"
jsonwebtoken = "=9.3.1"
serde_json = "=1.0.151"
uuid = { version = "=1.27.0", features = ["v4"] }
