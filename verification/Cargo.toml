[package]
name = "datapipe"
version = "0.1.0"
edition = "2021"
publish = false

[dependencies]
sha3 = "*"
rand = "*"
uuid = { version = "*", features = ["v4"] }
serde = { version = "*", features = ["derive"] }
tokio = { version = "*", features = ["macros", "rt-multi-thread"] }
futures = "*"
tracing = "*"
tracing-subscriber = "*"
aws-config = "*"
aws-sdk-dynamodb = "*"
aws-sdk-kinesis = "*"
aws_lambda_events = "*"
lambda_http = "*"
lambda_runtime = "*"

[dev-dependencies]
serde_json = "*"
