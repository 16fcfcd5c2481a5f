[package]
name = "sstra"
version = "0.1.0"
edition = "2021"
publish = false

[dependencies]
chrono = "*"
clap = "*"
tokio = { version = "*", features = ["rt"] }
yahoo_finance_api = "*"
