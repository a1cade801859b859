[package]
name = "akkoproxy"
version = "0.1.0"
edition = "2021"
publish = false

[dependencies]
anyhow = "*"
axum = "*"
bytes = "*"
clap = { version = "*", features = ["derive"] }
image = { version = "*", default-features = false, features = ["jpeg", "png", "webp", "avif", "gif", "bmp"] }
moka = { version = "*", features = ["sync"] }
reqwest = { version = "*", default-features = false, features = ["rustls-tls"] }
serde = { version = "*", features = ["derive"] }
tokio = { version = "*", features = ["full"] }
toml = "*"
tower-http = { version = "*", features = ["trace"] }
tracing = "*"
tracing-subscriber = { version = "*", features = ["env-filter"] }
url = "*"
