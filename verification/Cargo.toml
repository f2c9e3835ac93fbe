[package]
name = "powerflow"
version = "0.1.0"
edition = "2021"
publish = false

[dependencies]
serde = { version = "1", features = ["derive"] }
serde_json = "1"
plist = "1"
thiserror = "2"
anyhow = "1"
chrono = "0.4"
log = "0.4"
tokio = { version = "1", features = ["rt-multi-thread", "macros", "sync", "time", "process"] }
sqlx = { version = "0.8", default-features = false, features = ["sqlite", "runtime-tokio", "migrate"] }
core-foundation = "0.10"
io-kit-sys = "0.4"
