[package]
name = "tracing-wide"
version = "0.2.0"
edition = "2021"
publish = false

[dependencies]
tracing = "=0.1.44"
tracing-subscriber = "=0.3.23"
inventory = "=0.3.25"
erased-serde = "=0.4.11"
serde = { version = "=1.0.229", features = ["derive"] }
syn = { version = "=2.0.119", features = ["full"] }
quote = "=1.0.47"
proc-macro2 = "=1.0.107"
facet = { version = "=0.46.5", features = ["reflect"] }
