[package]
name = "arb_strategy"
version = "0.1.0"
edition = "2021"
publish = false

[dependencies]
rust_decimal = "1"
chrono = { version = "0.4", default-features = false, features = ["std", "clock"] }
serde = { version = "1", features = ["derive"] }
toml = "0.8"
tokio = { version = "1", features = ["sync", "rt", "macros", "time"] }
tracing = "0.1"
parking_lot = "0.12"
uuid = { version = "1", features = ["v4"] }
