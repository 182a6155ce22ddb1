[package]
name = "openobserve"
version = "0.1.0"
edition = "2021"
publish = false

[dependencies]
tantivy = "*"
anyhow = "*"
log = "*"
tokio = { version = "*", features = ["rt-multi-thread", "time", "sync"] }
