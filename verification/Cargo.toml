[package]
name = "placy"
version = "0.1.0"
edition = "2021"
publish = false

[dependencies]
zip = { version = "=2.6.1", default-features = false, features = ["deflate", "time"] }
regex = "=1.13.1"
rayon = "=1.12.0"
ristretto_classfile = "=0.26.0"
constant_time_eq = "=0.3.1"
form_urlencoded = "=1.2.2"
serde = { version = "=1.0.229", features = ["derive"] }
serde_json = "=1.0.154"
thiserror = "=2.0.21"
anyhow = "=1.0.104"
secrecy = "=0.10.3"
config = "=0.14.1"
dotenvy = "=0.15.7"
num_cpus = "=1.17.0"
futures = "=0.3.34"
tracing = "=0.1.44"
tracing-subscriber = { version = "=0.3.23", features = ["env-filter", "json"] }
tracing-appender = "=0.2.5"
tracing-actix-web = "=0.7.25"
actix-web = "=4.18.1"
actix-multipart = "=0.7.2"
metrics = "=0.24.6"
metrics-exporter-prometheus = "=0.16.2"
opentelemetry = "=0.27.1"
opentelemetry_sdk = { version = "=0.27.1", features = ["rt-tokio"] }
opentelemetry-otlp = "=0.27.0"
tracing-opentelemetry = "=0.28.0"
