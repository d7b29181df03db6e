[package]
name = "vote_api"
version = "0.1.0"
edition = "2021"
publish = false

[dependencies]
anyhow = "*"
axum = "*"
dotenvy = "*"
env_logger = "*"
log = "*"
reqwest = "*"
serde = { version = "*", features = ["derive"] }
serde_json = "*"
tokio = { version = "*", features = ["full"] }
toml = "*"
tower = "*"
tower-http = { version = "*", features = ["cors"] }
utoipa = "*"
utoipa-swagger-ui = { version = "*", features = ["axum"] }
