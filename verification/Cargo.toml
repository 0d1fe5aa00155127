[package]
name = "hulasync"
version = "0.1.0"
edition = "2021"
publish = false

[dependencies]
uuid = { version = "*", features = ["v4", "serde"] }
reqwest = { version = "*", features = ["json", "cookies"] }
tokio = { version = "*", features = ["macros", "rt-multi-thread"] }
serde = { version = "*", features = ["derive"] }
serde_json = "*"
chrono = { version = "*", features = ["serde"] }
diesel = { version = "*", features = ["postgres", "r2d2", "uuid", "chrono"] }
r2d2 = "*"
dotenv = "*"
env_logger = "*"
log = "*"
async-std = "*"
diesel_migrations = "*"
