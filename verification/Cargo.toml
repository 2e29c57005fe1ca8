[package]
name = "rss_converter"
version = "0.1.0"
edition = "2021"
publish = false

[dependencies]
regex = "1"
quick-xml = "0.31"
config = "0.14"
dotenvy = "0.15"
reqwest = "0.11"
serde = { version = "1", features = ["derive"] }
tokio = { version = "1", features = ["full"] }
tracing = "0.1"
tracing-subscriber = "0.3"
warp = "0.3"
