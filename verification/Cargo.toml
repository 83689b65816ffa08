[package]
name = "compiler_cache"
version = "0.1.0"
edition = "2021"
publish = false

[dependencies]
sha2 = "=0.10.9"
actix-web = "=4.18.1"
actix-web-prom = "=0.6.0"
anyhow = "=1.0.104"
async-trait = "=0.1.92"
bytes = "=1.12.1"
chrono = "=0.4.45"
config = { version = "=0.13.4", default-features = false, features = ["toml"] }
cron = "=0.11.0"
futures = "=0.3.34"
lazy_static = "=1.5.1"
len-trait = "=0.6.1"
log = "=0.4.34"
opentelemetry = "=0.17.0"
opentelemetry-jaeger = "=0.16.0"
parking_lot = "=0.12.5"
primitive-types = "=0.11.1"
prometheus = "=0.13.4"
reqwest = { version = "=0.11.27", features = ["json"] }
rust-s3 = "=0.31.0"
serde = { version = "=1.0.229", features = ["derive"] }
serde_json = "=1.0.154"
serde_with = "=1.14.0"
thiserror = "=1.0.69"
tokio = { version = "=1.54.1", features = ["full"] }
tracing-opentelemetry = "=0.17.4"
tracing-subscriber = { version = "=0.3.23", features = ["env-filter"] }
url = { version = "=2.5.8", features = ["serde"] }
