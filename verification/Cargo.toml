[package]
name = "pricer"
version = "0.1.0"
edition = "2021"
publish = false

[dependencies]
async-graphql = { version = "6", default-features = false, features = ["dataloader", "graphiql"] }
async-graphql-axum = "6"
async-trait = "0.1"
aws-config = "0.56"
aws-credential-types = "0.56"
aws-sdk-pricing = ">=0.28, <0.35"
aws-types = "0.56"
axum = { version = "0.6", features = ["macros"] }
serde = { version = "1", features = ["derive"] }
serde_json = "1"
shuttle-axum = ">=0.27, <0.36"
shuttle-runtime = ">=0.27, <0.36"
shuttle-secrets = ">=0.27, <0.36"
tokio = { version = "1", features = ["rt", "sync", "time"] }
tokio-stream = "0.1"
