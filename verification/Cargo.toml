[package]
name = "graphql_waf"
version = "0.1.1"
edition = "2021"
publish = false

[dependencies]
anyhow = "1"
async-graphql = { version = "7", default-features = false, features = ["playground"] }
async-graphql-axum = { version = "7", default-features = false }
axum = "0.8"
bytes = "1"
clap = { version = "4", features = ["derive", "env"] }
graphql-parser = "0.4"
http = "0.2"
hyper = { version = "0.14", features = ["full"] }
memchr = "2"
percent-encoding = "2"
serde = { version = "1", features = ["derive"] }
serde_json = "1"
tokio = { version = "1", features = ["full"] }
toml = "0.8"
tower-http = { version = "0.6", features = ["trace"] }
tracing = "0.1"
tracing-subscriber = "0.3"
url = "2"
