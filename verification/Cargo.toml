[package]
name = "gpu_stock"
version = "0.1.0"
edition = "2021"
publish = false

[dependencies]
scraper = "*"
anyhow = "*"
askama = "*"
axum = "*"
chrono = "*"
clap = { version = "*", features = ["derive"] }
comfy-table = "*"
futures = "*"
reqwest = { version = "*", default-features = false, features = ["rustls-tls"] }
serde = { version = "*", features = ["derive"] }
serde_json = "*"
serde_yaml = "*"
thiserror = "*"
tokio = { version = "*", features = ["macros", "rt-multi-thread", "net"] }
toml = "*"
tower-http = { version = "*", features = ["fs"] }
