[package]
name = "authenticated_tensor_garbling"
version = "0.1.0"
edition = "2021"
publish = false

[dependencies]
aes = "0.8"
rand = "0.9"
rand_chacha = "0.9"
serde = { version = "1", features = ["derive"] }
thiserror = "2"
tokio = { version = "1", features = ["time", "rt-multi-thread"] }
