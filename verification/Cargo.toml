[package]
name = "mobsf_engine"
version = "0.1.0"
edition = "2021"
publish = false

[dependencies]
zip = { version = "2", default-features = false, features = ["deflate"] }
thiserror = "1"
serde = { version = "1", features = ["derive"] }
