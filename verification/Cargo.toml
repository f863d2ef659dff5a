[package]
name = "blog_core"
version = "0.1.0"
edition = "2021"
publish = false

[dependencies]
markdown = "*"
rusqlite = { version = "*", features = ["bundled"] }
axum = "*"
axum-response-cache = "*"
tokio = { version = "*", features = ["rt-multi-thread", "macros", "net"] }
minijinja = "*"
serde = { version = "*", features = ["derive"] }
tower-http = { version = "*", features = ["fs"] }
