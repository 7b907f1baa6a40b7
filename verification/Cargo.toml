[package]
name = "rorm_cli"
version = "0.1.0"
edition = "2021"
publish = false

[dependencies]
rorm-sql = { version = "=0.9.3", features = ["sqlite", "mysql", "postgres"] }
rorm-declaration = { version = "=0.4.2", features = ["sqlite", "mysql", "postgres"] }
rorm-db = "=0.9.1"
sqlx = { version = "=0.9.0", default-features = false, features = ["any", "chrono"] }
tokio = { version = "*", features = ["rt-multi-thread", "macros"] }
clap = { version = "*", features = ["derive"] }
toml = "*"
serde = { version = "*", features = ["derive"] }
anyhow = "*"
rpassword = "*"
serde_json = "*"
