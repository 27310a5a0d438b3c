[package]
name = "ledit"
version = "0.1.0"
edition = "2021"
publish = false

[dependencies]
chrono = "0.4"
rand = "0.8"
regex = "1"
uuid = { version = "1", features = ["v4"] }
frankenstein = { version = "0.20", default-features = false, features = ["async-http-client"] }
sqlx = { version = "0.6", default-features = false, features = ["runtime-tokio-rustls", "postgres", "uuid", "chrono", "migrate", "macros"] }
tokio = { version = "1", features = ["macros", "rt-multi-thread", "time"] }
tracing = "0.1"
tracing-subscriber = "0.3"
dotenv = "0.15"
thiserror = "1"
serde = { version = "1", features = ["derive"] }
itertools = "0.10"
log = "0.4"
