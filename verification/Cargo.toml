[package]
name = "postal_code"
version = "0.1.0"
edition = "2021"
publish = false

[dependencies]
base64 = "0.22"
csv = "1"
encoding_rs = "0.8"
sha2 = "0.10"
zip = { version = "*", default-features = false, features = ["deflate"] }
serde = { version = "1", features = ["derive"] }
serde_json = "1"
tokio = { version = "1", features = ["macros", "rt"] }
reqwest = { version = "0.12", default-features = false, features = ["blocking"] }
aws-config = { version = "*", default-features = false }
aws-sdk-dynamodb = { version = "*", default-features = false }
lambda_runtime = "*"
lambda_http = "*"
