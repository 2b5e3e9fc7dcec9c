[package]
name = "auction_backfill"
version = "0.1.0"
edition = "2021"
publish = false

[dependencies]
anyhow = "1"
bigdecimal = "0.3"
clap = { version = "4", features = ["derive", "env"] }
derivative = "2"
hex = "0.4"
num = "0.4"
primitive-types = { version = "0.12", features = ["serde"] }
serde = { version = "1", features = ["derive"] }
serde_json = "1"
serde_with = "3"
sqlx = { version = "0.7", features = ["bigdecimal", "postgres", "runtime-tokio"] }
url = "2"
