[package]
name = "marmot_agent_core"
version = "0.1.0"
edition = "2021"
publish = false

[dependencies]
anyhow = "=1.0.104"
chrono = "=0.4.45"
clap = { version = "=4.6.7", features = ["derive"] }
directories = "=6.0.0"
getrandom = "=0.2.17"
hex = "=0.4.3"
mdk-core = "=0.8.0"
mdk-sqlite-storage = "=0.8.0"
mdk-storage-traits = "=0.8.0"
nostr = { version = "=0.44.8", features = ["nip59"] }
nostr-relay-pool = "=0.44.3"
serde = { version = "=1.0.229", features = ["derive"] }
serde_json = "=1.0.154"
thiserror = "=2.0.21"
tokio = { version = "=1.54.1", features = ["full"] }
toml = "=1.1.8"
tracing = "=0.1.44"
tracing-subscriber = "=0.3.23"
