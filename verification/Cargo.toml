[package]
name = "luckymon"
version = "0.1.0"
edition = "2021"
publish = false

[dependencies]
chrono = "0.4"
fastrand = "2"
rustemon = "*"
serenity = "0.11"
tokio = { version = "1", features = ["macros", "rt-multi-thread"] }
