[package]
name = "vio_api"
version = "0.1.0"
edition = "2021"
publish = false

[dependencies]
mongodb = { version = "=2.8.2", features = ["bson-chrono-0_4"] }
rust_decimal = "=1.43.0"
chrono = { version = "=0.4.45", features = ["serde"] }
serde = { version = "=1.0.229", features = ["derive"] }
serde_json = "=1.0.154"
schemars = { version = "=0.8.22", features = ["chrono"] }
rocket = { version = "=0.5.0", features = ["json"] }
rocket_okapi = { version = "=0.8.0", features = ["rapidoc"] }
rocket_cors = "=0.6.0"
dotenv = "=0.15.0"
env_logger = "=0.10.2"
log = "=0.4.35"
futures = "=0.3.34"
tokio = { version = "=1.54.1", features = ["full"] }
