[package]
name = "ics_sensor"
version = "0.1.0"
edition = "2021"
publish = false

[dependencies]
chrono = "=0.4.45"
chrono-tz = "=0.10.4"
ical = "=0.11.0"
futures = "=0.3.34"
reqwest = { version = "=0.13.5", default-features = false, features = ["stream"] }
serde = { version = "=1.0.229", features = ["derive"] }
tokio = { version = "=1.53.2", features = ["rt", "rt-multi-thread", "macros", "io-util"] }
tokio-util = { version = "=0.7.19", features = ["io"] }
tracing = "=0.1.44"
tracing-bunyan-formatter = "=0.3.10"
tracing-subscriber = { version = "=0.3.23", features = ["env-filter"] }
url = { version = "=2.5.8", features = ["serde"] }
warp = { version = "=0.4.3", features = ["server"] }
