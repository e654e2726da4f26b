[package]
name = "playground_bot"
version = "0.1.0"
edition = "2021"
publish = false

[dependencies]
globset = "0.4"
serenity = "0.11"
tokio = { version = "1", features = ["macros", "rt-multi-thread"] }
reqwest = { version = "0.11", default-features = false, features = ["json", "rustls-tls"] }
serde = { version = "1", features = ["derive"] }
serde_json = "1"
dotenv = "0.15"
thiserror = "1"
