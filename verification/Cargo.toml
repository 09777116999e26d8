[package]
name = "crosschain_quote"
version = "0.1.0"
edition = "2021"
publish = false

[dependencies]
alloy = { version = "=0.3.6", default-features = false, features = ["std", "hyper", "providers", "provider-http", "sol-types"] }
revm = { version = "=14.0.3", default-features = false, features = ["std", "alloydb"] }
tokio = { version = "=1.54.1", features = ["rt-multi-thread"] }
dotenv = "0.15"
