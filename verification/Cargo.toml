[package]
name = "webhook_verifier"
version = "0.1.0"
edition = "2021"
publish = false

[dependencies]
hmac = "0.12"
sha2 = "0.10"
hex = "0.4"
bytes = "1"
warp = "0.3"
tokio = { version = "1", features = ["macros", "rt-multi-thread"] }
dotenv = "0.15"
