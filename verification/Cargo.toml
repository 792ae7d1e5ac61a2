[package]
name = "snake_arena"
version = "0.1.0"
edition = "2021"
publish = false

[dependencies]
rand = "=0.6.5"
serde = { version = "=1.0.229", features = ["derive"] }
serde_json = "=1.0.154"
futures = "=0.1.31"
tokio = "=0.1.22"
warp = "=0.1.23"
markup = "0.3"
lazy_static = "=1.5.1"
