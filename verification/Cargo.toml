[package]
name = "sunmao"
version = "0.1.0"
edition = "2021"
publish = false

[dependencies]
ulid = "*"
serde = { version = "1", features = ["derive"] }
serde_json = "1"
thiserror = "*"
anyhow = "1"
chrono = { version = "0.4", features = ["serde"] }
uuid = { version = "1", features = ["v4", "serde"] }
tokio = { version = "1", features = ["full"] }
axum = "0.8"
tower-http = { version = "*", features = ["trace"] }
sqlx = { version = "0.8", default-features = false, features = ["postgres", "runtime-tokio", "chrono", "uuid", "json", "migrate"] }
clap = { version = "4", features = ["derive", "env"] }
tracing = "0.1"
tracing-subscriber = { version = "0.3", features = ["env-filter"] }
async-stream = "0.3"
futures = "0.3"
reqwest = { version = "0.12", default-features = false, features = ["json"] }
toml = "*"
ratatui = "*"
crossterm = "*"
