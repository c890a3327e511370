[package]
name = "intent_database"
version = "0.1.0"
edition = "2021"
publish = false

[dependencies]
chrono = "0.4"
serde = { version = "1", features = ["derive"] }
serde_json = "1"
bincode = "1"
async-trait = "0.1"
once_cell = "1"
sled = "0.34"
tokio = { version = "1", features = ["rt", "rt-multi-thread", "macros", "time", "sync"] }
tiny_http = "0.12"
reqwest = { version = "0.12", default-features = false, features = ["json"] }
tempfile = "3"
