[package]
name = "bootnode_probe"
version = "0.1.0"
edition = "2021"
publish = false

[dependencies]
anyhow = "=1.0.104"
clap = { version = "=4.6.7", features = ["derive"] }
futures = "=0.3.34"
prometheus = "=0.14.0"
rand = "=0.8.8"
reqwest = { version = "=0.13.5", default-features = false }
serde = { version = "=1.0.229", features = ["derive"] }
serde_json = "=1.0.151"
tokio = { version = "=1.53.2", features = ["macros", "rt-multi-thread", "sync", "time"] }
toml = "=1.1.6"
tracing = "=0.1.44"
tracing-subscriber = "=0.3.23"
warp = { version = "=0.4.3", features = ["server"] }
