[package]
name = "seakarr"
version = "0.1.0"
edition = "2021"
publish = false

[dependencies]
regex = "1"
unicode-normalization = "0.1"
futures = "0.3"
indicatif = "0.17"
lofty = "0.21"
rusqlite = { version = "0.32", features = ["bundled"] }
tokio = { version = "1", features = ["rt", "rt-multi-thread", "signal", "sync", "time", "macros"] }
tracing = "0.1"
tracing-subscriber = "0.3"
walkdir = "2"
