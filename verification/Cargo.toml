[package]
name = "sciffer_rs"
version = "0.1.0"
edition = "2021"
publish = false

[dependencies]
regex = "=1.13.1"
serde_json = "=1.0.151"
serde = { version = "=1.0.229", features = ["derive"] }
tokio = { version = "=1.53.2", features = ["macros", "rt-multi-thread", "time"] }
futures = "=0.3.34"
async-trait = "=0.1.92"
chrono = { version = "=0.4.45", default-features = false, features = ["clock"] }
clap = { version = "=4.6.7", features = ["derive"] }
derive_builder = "=0.20.2"
dotenv = "=0.15.0"
langchain-rust = "=4.6.0"
sqlx = { version = "=0.9.0", default-features = false, features = ["sqlite", "runtime-tokio"] }
reqwest = "=0.12.28"
flexi_logger = "=0.31.10"

[dev-dependencies]
rand = "=0.8.8"
