[package]
name = "tusk"
version = "0.1.0"
edition = "2021"
publish = false

[dependencies]
serde = { version = "1", features = ["derive"] }
serde_json = "1"
rusqlite = { version = "*", features = ["bundled"] }
csv = "1"
tokio = { version = "1", features = ["sync", "rt", "rt-multi-thread", "net", "io-util", "macros", "time"] }
tokio-postgres = "0.7"
russh = "*"
