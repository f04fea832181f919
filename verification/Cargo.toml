[package]
name = "potato_game"
version = "0.1.0"
edition = "2021"
publish = false

[dependencies]
chrono = "0.4"
rand = "0.9"
serde = { version = "1", features = ["derive"] }
sqlx = { version = "0.8", default-features = false, features = ["sqlite", "runtime-tokio"] }
tokio = { version = "1", features = ["rt-multi-thread", "macros", "signal", "time"] }
serenity = "0.12"
poise = "0.6"
config = "0.15"
dotenv = "0.15"
duration-str = "*"
tracing = "0.1"
tracing-subscriber = "0.3"
