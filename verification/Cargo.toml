[package]
name = "dit"
version = "0.1.0"
edition = "2021"
publish = false

[dependencies]
anyhow = "1"
clap = { version = "3", features = ["derive"] }
diesel = { version = "1.4", features = ["sqlite"] }
dotenv = "0.15"
serde = { version = "1", features = ["derive"] }
sled = "0.34"
tokio = { version = "1", features = ["fs", "macros", "rt"] }

[dev-dependencies]
bincode = "1.3"
