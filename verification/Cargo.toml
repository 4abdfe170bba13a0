[package]
name = "mellea"
version = "0.1.0"
edition = "2021"
publish = false

[dependencies]
async-trait = "0.1"
ollama-rs = "*"
reqwest = { version = "*", default-features = false, features = ["json"] }
schemars = "0.8"
serde = { version = "1", features = ["derive"] }
serde_json = "1"
thiserror = "*"
tracing = "0.1"
