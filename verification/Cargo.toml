[package]
name = "insultbot"
version = "0.1.0"
edition = "2021"
publish = false

[dependencies]
rand = "0.8"
log = "0.4"
serde = { version = "1", features = ["derive"] }
serde_json = "1"
tokio = { version = "1", features = ["macros", "rt", "sync"] }
simple_logger = "*"
lambda_runtime = "*"
hyper = { version = "0.14", features = ["client", "http1", "http2", "tcp"] }
hyper-openssl = "0.9"
openssl-probe = "0.1"
rusoto_core = "0.48"
rusoto_dynamodb = "0.48"
