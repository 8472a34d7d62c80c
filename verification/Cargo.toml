[package]
name = "oss_drop"
version = "0.1.0"
edition = "2021"
publish = false

[dependencies]
aliyun-oss-client = "0.12"
urlencoding = "2"
anyhow = "1"
log = "0.4"
serde = { version = "1", features = ["derive"] }
serde_json = "1"
