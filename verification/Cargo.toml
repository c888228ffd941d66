[package]
name = "near-enhanced-api"
version = "0.1.0"
edition = "2021"
publish = false

[dependencies]
actix-cors = "=0.7.2"
actix-web = { version = "=4.18.1", default-features = false, features = ["macros"] }
actix-web-prom = "=0.10.0"
actix-web-validator = "=7.0.0"
dotenv = "=0.15.0"
near-jsonrpc-client = "=0.22.0"
near-jsonrpc-primitives = "=0.37.4"
near-primitives = "=0.37.4"
serde = { version = "=1.0.229", features = ["derive"] }
serde_json = "=1.0.154"
sqlx = { version = "=0.9.0", default-features = false, features = ["postgres", "bigdecimal", "runtime-tokio", "derive"] }
tokio = { version = "=1.54.1", features = ["macros", "rt-multi-thread"] }
tracing = "=0.1.44"
tracing-actix-web = "=0.7.25"
tracing-opentelemetry = "0.23"
tracing-stackdriver = { version = "=0.10.0", features = ["opentelemetry"] }
tracing-subscriber = { version = "=0.3.23", features = ["env-filter"] }
