[package]
name = "mail_mcp"
version = "0.1.0"
edition = "2021"
publish = false

[dependencies]
anyhow = "1"
clap = { version = "4", features = ["derive"] }
dotenvy = "0.15"
imap = "2.4"
lettre = { version = "0.11", features = ["tokio1-native-tls"] }
mailparse = "0.16"
mime_guess = "2"
native-tls = "0.2"
rmcp = { version = "3.2", features = ["server", "macros", "transport-io"] }
serde = { version = "1", features = ["derive"] }
serde_json = "1"
tokio = { version = "1", features = ["macros", "rt-multi-thread", "fs"] }
toml = "*"
tracing-subscriber = { version = "0.3", features = ["env-filter"] }
