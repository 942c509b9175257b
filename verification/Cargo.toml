[package]
name = "menuapi"
version = "0.1.0"
edition = "2021"

[dependencies]
askama = { version = "0.12", default-features = false }
axum = "0.7"
parking_lot = "0.12"
serde = { version = "1", features = ["derive"] }
serde_json = "1"
tokio = { version = "1", features = ["rt-multi-thread", "macros", "net"] }
