[package]
name = "hh_rust_bot"
version = "0.1.0"
edition = "2021"
publish = false

[dependencies]
dotenv = "=0.15.0"
reqwest = { version = "=0.12.28", features = ["json"] }
rusqlite = { version = "=0.32.1", features = ["bundled"] }
serde = { version = "=1.0.229", features = ["derive"] }
# Not used directly: teloxide-core depends on takecell, and takecell 0.1.2
# needs rustc 1.96; this keeps the one that builds with the toolchain in use.
takecell = "=0.1.1"
teloxide = { version = "=0.13.0", features = ["macros"] }
tokio = { version = "=1.54.1", features = ["full"] }
