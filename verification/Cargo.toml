[package]
name = "ecal-mcp"
version = "0.1.0"
edition = "2021"
publish = false

[dependencies]
anyhow = "1"
base64 = "0.22"
clap = { version = "4", features = ["derive"] }
parking_lot = "0.12"
rmcp = { version = "*", features = ["server", "macros", "transport-io", "schemars"] }
rustecal = "*"
rustecal-core = "*"
rustecal-types-bytes = "*"
rustecal-types-string = "*"
serde = { version = "1", features = ["derive"] }
serde_json = "1"
sha2 = "0.10"
tokio = { version = "1", features = ["macros", "rt-multi-thread", "time"] }
tracing = "0.1"
tracing-subscriber = { version = "0.3", features = ["env-filter", "fmt"] }
