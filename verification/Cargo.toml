[package]
name = "standarx_dsl"
version = "0.1.0"
edition = "2021"
publish = false

[dependencies]
serde = { version = "1", features = ["derive"] }
serde_json = "1"
thiserror = "*"
tokio = { version = "1", features = ["rt", "macros", "io-std", "sync"] }
tower-lsp = "*"
