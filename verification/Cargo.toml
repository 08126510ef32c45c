[package]
name = "pokerhaand"
version = "0.1.0"
edition = "2021"
publish = false

[dependencies]
axum = { version = "0.8", features = ["macros"] }
chrono = "0.4"
envy = "0.4"
eyre = "0.6"
rand = "0.9"
rand_chacha = "0.9"
rand_seeder = "0.4"
serde = { version = "1", features = ["derive"] }
sqlx = { version = "0.8", default-features = false, features = ["runtime-tokio", "sqlite", "uuid", "migrate"] }
tokio = { version = "1", features = ["rt", "net", "macros"] }
uuid = { version = "1", features = ["v4", "serde"] }

[dev-dependencies]
serde_json = "1"
