[package]
name = "pagerduty_cli"
version = "0.1.0"
edition = "2021"
publish = false

[dependencies]
clap = "2"
csv = "1"
dotenv = "0.15"
flexi_logger = "*"
json = "0.12"
lazy_static = "1"
log = "0.4"
regex = "1"
reqwest = "0.12"
serde = { version = "1", features = ["derive"] }
serde_json = "1"
tokio = { version = "1", features = ["macros", "rt-multi-thread"] }
