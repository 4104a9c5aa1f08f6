[package]
name = "pair_assistant"
version = "0.1.0"
edition = "2021"
publish = false

[dependencies]
async-openai = "0.10"
futures = "0.3"
reqwest = { version = "0.11", features = ["json"] }
rodio = "0.17"
serde = { version = "1", features = ["derive"] }
tokio = { version = "1", features = ["full"] }
