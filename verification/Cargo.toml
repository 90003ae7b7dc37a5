[package]
name = "zephost"
version = "0.1.0"
edition = "2021"
publish = false

[dependencies]
actix = "=0.13.5"
actix-cors = "=0.7.2"
actix-files = "=0.6.10"
actix-web = { version = "=4.18.1", default-features = false, features = ["macros", "ws"] }
actix-web-actors = "=4.3.1"
aes = "=0.8.4"
bcrypt = "=0.15.1"
block-padding = "=0.3.3"
cbc = { version = "=0.1.2", features = ["alloc"] }
dotenvy = "=0.15.7"
rand = "=0.8.8"
reqwest = { version = "=0.12.28", default-features = false, features = ["json"] }
serde = { version = "=1.0.229", features = ["derive"] }
serde_json = "=1.0.154"
sqlx = { version = "=0.8.6", default-features = false, features = ["runtime-tokio", "postgres", "json"] }
tokio = { version = "=1.54.1", features = ["macros", "rt-multi-thread", "sync", "time"] }
uuid = { version = "=1.29.0", features = ["v4"] }
