[package]
name = "hn_tracker"
version = "0.1.0"
edition = "2021"
publish = false

[dependencies]
bytes = "1"
dotenv = "0.15"
log = "0.4"
reqwest = { version = "0.11", features = ["json"] }
rss = { version = "2", default-features = false }
serde_json = "1"
simple_logger = "4"
tokio = { version = "1", features = ["macros", "rt-multi-thread", "time"] }
