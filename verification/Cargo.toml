[package]
name = "raze_planner"
version = "0.1.0"
edition = "2021"
publish = false

[dependencies]
cargo-platform = "=0.1.0"
serde = { version = "=1.0.229", features = ["derive"] }
serde_json = "=1.0.154"
tempdir = "=0.3.7"
