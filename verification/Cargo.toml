[package]
name = "hn_cli"
version = "0.1.0"
edition = "2021"
publish = false

[dependencies]
anyhow = "*"
clap = { version = "*", features = ["derive"] }
colored = "*"
dirs = "*"
futures = "*"
open = "*"
reqwest = { version = "*", default-features = false }
scraper = "*"
tokio = { version = "*", features = ["macros", "rt-multi-thread"] }
