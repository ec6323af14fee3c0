[package]
name = "internal_extension"
version = "0.1.0"
edition = "2021"
publish = false

[dependencies]
aws_lambda_events = "*"
lambda-extension = "*"
lambda_runtime = "*"
serde = { version = "*", features = ["derive"] }
serde_json = "*"
tokio = { version = "*", features = ["macros", "rt-multi-thread", "signal"] }
tracing = "*"
tracing-subscriber = "*"
