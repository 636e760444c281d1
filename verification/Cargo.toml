[package]
name = "springtime"
version = "0.1.0"
edition = "2021"
publish = false

[dependencies]
convert_case = "=0.12.0"
inventory = "=0.3.25"
serde = { version = "=1.0.229", features = ["derive"] }
config = { version = "=0.15.27", default-features = false, features = ["json"] }
tracing = "=0.1.44"
tracing-subscriber = { version = "=0.3.23", features = ["env-filter"] }
thiserror = "=2.0.21"
futures = "=0.3.34"
axum = "=0.8.9"
tokio = { version = "=1.54.1", features = ["sync", "rt", "macros", "net"] }
refinery-core = { version = "=0.10.1", default-features = false, features = ["int8-versions"] }
