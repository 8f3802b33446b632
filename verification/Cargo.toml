[package]
name = "mzkana_core"
version = "0.1.0"
edition = "2021"
publish = false

[dependencies]
serde = { version = "1", features = ["derive"] }
toml = "0.8"
schemars = "0.8"
serde_json = "1"
clap = { version = "4", features = ["derive"] }
tracing = "0.1"
tracing-subscriber = { version = "0.3", features = ["env-filter"] }
notify = "6"
libc = "0.2"
thiserror = "1"
phf = { version = "0.11", features = ["macros"] }
prost = "0.13"
