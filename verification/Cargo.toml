[package]
name = "blobcache"
version = "0.1.0"
edition = "2021"
publish = false

[dependencies]
rocksdb = "0.23"
hyper = { version = "0.14", features = ["full"] }
tokio = { version = "1", features = ["full"] }
async-stream = "0.3"
pretty_env_logger = "0.5"
