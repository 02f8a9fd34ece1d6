[package]
name = "foundry_stats"
version = "0.1.0"
edition = "2021"
publish = false

[dependencies]
iota-sdk = { version = "=1.1.5", default-features = false, features = ["irc_27", "irc_30"] }
serde_json = "1"
tokio = { version = "1", features = ["macros", "rt-multi-thread"] }
