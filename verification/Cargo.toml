[package]
name = "rustinx"
version = "0.1.0"
edition = "2021"
publish = false

[dependencies]
actix-web = "*"
actix-session = { version = "*", features = ["cookie-session"] }
actix-cors = "*"
actix-files = "*"
serde = { version = "*", features = ["derive"] }
serde_json = "*"
env_logger = "*"
lazy_static = "*"
sysinfo = "*"
tokio = { version = "*", features = ["rt-multi-thread", "macros"] }
nix = "*"
