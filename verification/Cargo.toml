[package]
name = "simple_stock_tracker"
version = "0.1.0"
edition = "2021"
publish = false

[dependencies]
chrono = "=0.4.45"
clap = { version = "=4.6.7", features = ["derive"] }
yahoo_finance_api = { version = "=5.0.0", features = ["blocking"] }
time = "=0.3.55"
