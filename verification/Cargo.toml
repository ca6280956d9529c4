[package]
name = "backend_ai"
version = "0.1.0"
edition = "2021"
publish = false

[dependencies]
hex = "0.4"
openssl = "0.10"
serde_json = "1"
serde = { version = "1", features = ["derive"] }
actix-web = "4"
reqwest = { version = "0.12", default-features = false, features = ["json"] }
futures = "0.3"
sqlx = { version = "0.8", features = ["runtime-tokio", "postgres", "uuid", "chrono"] }
uuid = { version = "1", features = ["serde"] }
chrono = { version = "0.4", features = ["serde"] }
dotenv = "0.15"
