[package]
name = "job_dispatcher"
version = "0.1.0"
edition = "2021"
publish = false

[dependencies]
redis = { version = "*", features = ["tokio-comp"] }
tokio = { version = "*", features = ["rt-multi-thread", "macros", "time"] }

[dev-dependencies]
serde_json = "*"
