[package]
name = "async_io_packet"
version = "0.1.0"
edition = "2021"
publish = false

[dependencies]
anyhow = "1"
rand = "0.8"
snow = "0.9"
tokio = { version = "1", features = ["net", "io-util", "rt", "rt-multi-thread"] }
