[package]
name = "hexane"
version = "0.1.0"
edition = "2021"
publish = false

[dependencies]
sha2 = "*"
email_address = "*"
argon2 = "*"
rand = "*"
serde = { version = "*", features = ["derive"] }
serde_json = "*"
tokio = { version = "*", features = ["rt-multi-thread", "macros", "process", "fs", "io-util", "time", "signal", "sync"] }
sqlx = { version = "*", default-features = false, features = ["runtime-tokio", "tls-rustls", "postgres", "uuid"] }
reqwest = { version = "*", default-features = false, features = ["json"] }
toml = "*"
uuid = "*"
temp-dir = "*"
