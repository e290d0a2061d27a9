[package]
name = "tapo_exporter"
version = "0.1.0"
edition = "2021"
publish = false

[dependencies]
async-trait = "*"
axum = "*"
clap = { version = "*", features = ["derive", "env"] }
clap_complete = "*"
reqwest = { version = "*", default-features = false }
tapo = "*"
tokio = { version = "*", features = ["rt-multi-thread", "macros", "net", "sync"] }
