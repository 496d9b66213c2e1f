[package]
name = "queue_alert"
version = "0.1.0"
edition = "2021"
publish = false

[dependencies]
flate2 = "*"
base64 = "*"
chrono = "*"
scraper = "*"
url = "*"
serde = { version = "*", features = ["derive"] }
serde_json = "*"
tokio = { version = "*", features = ["full"] }
actix-web = "*"
actix-cors = "*"
actix-files = "*"
web-push = "*"
sqlx = { version = "*", default-features = false, features = ["sqlite", "runtime-tokio", "macros"] }
reqwest = { version = "*", default-features = false, features = ["json"] }
log = "*"
simplelog = "*"
async-trait = "*"
