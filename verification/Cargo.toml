[package]
name = "turborepo_repository"
version = "0.1.0"
edition = "2021"
publish = false

[dependencies]
petgraph = "0.6.3"
serde = { version = "1", features = ["derive"] }
thiserror = "1"
