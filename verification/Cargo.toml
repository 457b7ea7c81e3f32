[package]
name = "precise_calc"
version = "0.1.0"
edition = "2021"
publish = false

[dependencies]
aws_lambda_events = "*"
lambda_runtime = "*"
log = "*"
serde = { version = "*", features = ["derive"] }
serde_json = "*"
simple_logger = "*"
tokio = { version = "*", features = ["macros", "rt-multi-thread"] }
