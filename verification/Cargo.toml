[package]
name = "cocoindex"
version = "0.1.0"
edition = "2021"
publish = false

[dependencies]
anyhow = "1"
async-trait = "0.1"
axum = { version = "0.8", default-features = false }
blake2 = "0.10"
deadpool = "0.12"
futures = "0.3"
hex = "0.4"
indexmap = "2"
serde = { version = "1", features = ["derive"] }
serde_json = "1"
sqlx = { version = "0.8", default-features = false, features = ["postgres", "runtime-tokio", "json"] }
tokio = { version = "1", features = ["sync", "rt"] }
tracing = "0.1"
