[package]
name = "postgres_source"
version = "0.1.0"
edition = "2021"
publish = false

[dependencies]
tokio-postgres = "0.7"
postgres-protocol = "0.6"
uuid = { version = "1", features = ["v4"] }
anyhow = "1"
futures = "0.3"
async-stream = "0.3"
once_cell = "1"
tokio = { version = "1", features = ["rt", "sync", "time", "macros"] }
tracing = "0.1"
fail = "0.5"
timely = "0.12"
differential-dataflow = "0.12"
