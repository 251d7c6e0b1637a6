[package]
name = "review_gate"
version = "0.1.0"
edition = "2021"
publish = false

[dependencies]
eipw-preamble = "=0.4.0"
octocrab = "=0.47.1"
tokio = { version = "=1.53.2", features = ["macros", "rt-multi-thread"] }
askama = "=0.16.1"
chrono = "=0.4.45"

[dev-dependencies]
regex = "1"
