[package]
name = "gear_sync"
version = "0.1.0"
edition = "2021"
publish = false

[dependencies]
serde_json = "1"
axum = "0.7"
tokio = { version = "1", features = ["rt-multi-thread", "macros", "net"] }
tower-http = { version = "0.5", features = ["cors"] }
notify-debouncer-mini = "0.4"
chrono = "0.4"
