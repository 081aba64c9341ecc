[package]
name = "sdkwork_invoice"
version = "0.1.0"
edition = "2021"
publish = false

[dependencies]
serde_json = "1"
serde = { version = "1", features = ["derive"] }
axum = "0.8"
tokio = { version = "1", features = ["macros", "rt-multi-thread", "net"] }
uuid = { version = "1", features = ["v4"] }
sqlx = { version = "0.8", default-features = false, features = ["postgres", "runtime-tokio"] }
