[package]
name = "filepanel"
version = "0.1.0"
edition = "2021"
publish = false

[dependencies]
unix_mode = "*"
crossterm = { version = "*", features = ["event-stream"] }
tokio = { version = "*", features = ["rt-multi-thread", "macros", "sync"] }
futures = "*"
thiserror = "*"
