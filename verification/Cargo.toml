[package]
name = "route_cli"
version = "0.1.0"
edition = "2021"
publish = false

[dependencies]
anyhow = "*"
clap = { version = "*", features = ["derive"] }
dirs = "*"
reqwest = { version = "*", default-features = false, features = ["rustls-tls"] }
serde = { version = "*", features = ["derive"] }
serde_json = "*"
serde_yaml = "*"
tokio = { version = "*", features = ["macros", "process", "rt-multi-thread", "time"] }
toml = "*"
tracing-subscriber = { version = "*", features = ["env-filter", "fmt"] }
zip = { version = "*", default-features = false, features = ["deflate"] }
