[package]
name = "modeldeck"
version = "0.1.0"
edition = "2021"
publish = false

[dependencies]
anyhow = "1"
axum = "0.8"
chrono = { version = "0.4", features = ["serde"] }
dioxus = { version = "0.7", default-features = false, features = ["asset", "document", "fullstack", "hooks", "html", "launch", "lib", "macro", "server", "signals"] }
dotenvy = "0.15"
futures = "0.3"
futures-util = "0.3"
reqwest = { version = "0.12", default-features = false, features = ["json", "stream"] }
serde = { version = "1", features = ["derive"] }
serde_json = "1"
tokio = { version = "1", features = ["full"] }
tokio-stream = "0.1"
tower = "0.5"
tower-http = { version = "0.6", features = ["trace"] }
tracing = "0.1"
tracing-subscriber = { version = "0.3", features = ["env-filter"] }
web-sys = { version = "0.3", features = ["Location", "Window"] }
