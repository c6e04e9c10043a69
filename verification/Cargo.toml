[package]
name = "appliance_register"
version = "0.1.0"
edition = "2021"
publish = false

[dependencies]
actix-web = "*"
aws-config = "*"
aws-sdk-dynamodb = "*"
derive_more = { version = "*", features = ["display"] }
env_logger = "*"
log = "*"
serde = { version = "*", features = ["derive"] }
strum = "*"
strum_macros = "*"
