[package]
name = "repo_edit"
version = "0.1.0"
edition = "2021"
publish = false

[dependencies]
anyhow = "*"
clap = { version = "*", features = ["derive"] }
colored = "*"
futures-util = "*"
git2 = "*"
serde = { version = "*", features = ["derive"] }
serde_json = "*"
similar = "*"
tokio = { version = "*", features = ["macros", "rt-multi-thread"] }
tokio-tungstenite = "*"
