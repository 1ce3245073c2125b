[package]
name = "signal_relay"
version = "0.1.0"
edition = "2021"
publish = false

[dependencies]
actix-web = "*"
actix-web-lab = "*"
actix-files = "*"
actix-session = { version = "*", features = ["cookie-session"] }
futures-util = "*"
parking_lot = "*"
serde = { version = "*", features = ["derive"] }
serde_json = "*"
uuid = { version = "*", features = ["v4", "serde"] }
