[package]
name = "sticky-events"
version = "0.1.0"
edition = "2021"
publish = false

[dependencies]
futures-util = "=0.3.34"
ruma = { version = "=0.17.2", features = ["events", "unstable-msc4354", "client-api-c", "unstable-msc4186", "unstable-msc4480"] }
serde = { version = "=1.0.229", features = ["derive"] }
serde_json = { version = "=1.0.154", features = ["raw_value"] }
tokio = { version = "=1.54.1", features = ["macros", "rt", "sync", "time"] }
tracing = "=0.1.44"
