[package]
name = "event_service"
version = "0.1.0"
edition = "2021"
publish = false

[dependencies]
actix-web = "*"
actix-identity = "*"
actix-session = { version = "*", features = ["cookie-session"] }
actix-rt = "*"
deadpool-postgres = "*"
tokio-postgres = { version = "*", features = ["with-uuid-1"] }
uuid = "*"
