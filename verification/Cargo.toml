[package]
name = "linkuptime"
version = "0.1.0"
edition = "2021"
publish = false

[dependencies]
irctokens = "*"
tokio = { version = "*", features = ["full"] }
chrono = "*"
gumdrop = "*"
