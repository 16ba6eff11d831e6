[package]
name = "news"
version = "0.1.0"
edition = "2021"
publish = false

[dependencies]
axum = "0.6"
clokwerk = "0.4"
reqwest = { version = "0.11", default-features = false }
tokio = { version = "1", features = ["macros", "rt-multi-thread", "time"] }
