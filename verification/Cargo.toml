[package]
name = "webhook_ingest"
version = "0.1.0"
edition = "2021"
publish = false

[dependencies]
axum = "=0.8.9"
axum-github-webhook-extract = "=0.3.0"
deadpool = { version = "=0.12.3", features = ["rt_tokio_1"] }
diesel = { version = "=2.2.12", default-features = false }
diesel-async = { version = "=0.5.2", features = ["postgres", "deadpool"] }
diesel_async_migrations = "=0.15.0"
dotenvy = "=0.15.7"
futures-util = { version = "=0.3.34", features = ["async-await-macro"] }
hmac-sha256 = "=1.1.15"
log = "=0.4.34"
serde_json = "=1.0.154"
subtle = "=2.6.1"
tokio = { version = "=1.54.1", features = ["macros", "rt-multi-thread", "net"] }
tower-http = { version = "=0.7.1", features = ["trace"] }
tracing = "=0.1.44"
tracing-subscriber = "=0.3.23"

[dev-dependencies]
hex = "=0.4.3"
