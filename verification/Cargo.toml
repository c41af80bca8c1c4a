[package]
name = "role_auth"
version = "0.1.0"
edition = "2021"
publish = false

[dependencies]
bcrypt = "0.15"
dotenv = "0.15"
hmac = "0.12"
mongodb = "2"
serde = { version = "1", features = ["derive"] }
sha2 = "0.10"
tokio = { version = "1", features = ["macros", "rt-multi-thread"] }
warp = "0.3"
