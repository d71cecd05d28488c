[package]
name = "aggregate_repository"
version = "0.1.0"
edition = "2021"
publish = false

[dependencies]
uuid = { version = "1", features = ["v4", "serde"] }
mongodb = { version = "2", default-features = false, features = ["sync"] }
serde = { version = "1", features = ["derive"] }
thiserror = "1"
