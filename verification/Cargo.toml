[package]
name = "skills-lint-core"
version = "0.1.0"
edition = "2021"
publish = false

[dependencies]
clap = { version = "4", features = ["derive"] }
colored = "*"
comfy-table = "*"
dialoguer = "*"
glob = "0.3"
indicatif = "*"
serde = { version = "1", features = ["derive"] }
serde_json = "1"
sha2 = "0.10"
thiserror = "*"
tiktoken-rs = "*"
