[package]
name = "world"
version = "0.1.0"
edition = "2021"
publish = false

[dependencies]
rand = "0.8"
roxmltree = "0.20"
tokio = { version = "1", features = ["sync", "rt", "time", "macros"] }
tracing = "0.1"
thiserror = "1"
mlua = { version = "0.10", features = ["lua54", "vendored", "send"] }
serde = { version = "1", features = ["derive"] }
