[package]
name = "codex_plus_core"
version = "0.1.0"
edition = "2021"
publish = false

[dependencies]
anyhow = "=1.0.104"
serde_json = "=1.0.154"
tokio = { version = "=1.54.1", features = ["io-util", "net", "rt-multi-thread", "time"] }
toml_edit = "=0.22.27"
windows = { version = "0.58.0", features = ["Win32_Foundation", "Win32_Security_Credentials"] }
