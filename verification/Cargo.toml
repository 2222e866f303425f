[package]
name = "space_cmd"
version = "0.1.0"
edition = "2021"
publish = false

[dependencies]
serde_json = "*"
chrono = "*"
serde = { version = "*", features = ["derive"] }
reqwest = { version = "*", default-features = false, features = ["blocking", "json"] }
rusqlite = { version = "*", features = ["bundled"] }
tokio = { version = "*", features = ["rt", "rt-multi-thread", "process", "time", "macros", "fs"] }
crossterm = "*"
ratatui = "*"
