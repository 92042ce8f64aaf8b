[package]
name = "amort"
version = "0.1.0"
edition = "2021"
publish = false

[dependencies]
chrono = "0.4"
serde = { version = "1", features = ["derive"] }
actix-web = "4"
portpicker = "0.1"
