[package]
name = "poll_novelty"
version = "0.1.0"
edition = "2021"
publish = false

[dependencies]
str-distance = "=0.1.0"
serde = { version = "*", features = ["derive"] }
serde_json = "=1.0.151"
reqwest = { version = "=0.13.5", default-features = false, features = ["form"] }
async-openai = { version = "=0.42.1", features = ["completions"] }
tokio = { version = "=1.53.2", features = ["macros", "rt-multi-thread"] }
