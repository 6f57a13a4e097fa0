[package]
name = "rustrade"
version = "0.1.0"
edition = "2021"
publish = false

[dependencies]
rust_decimal = "1"
chrono = "0.4"
uuid = { version = "1", features = ["v4"] }
tokio = { version = "1", features = ["sync", "rt", "macros", "time"] }
ndarray = "*"
