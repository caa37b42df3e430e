[package]
name = "porkbun_ddns"
version = "0.1.0"
edition = "2021"
publish = false

[dependencies]
clap = { version = "*", features = ["derive", "env"] }
tokio = { version = "*", features = ["rt", "macros", "fs"] }
reqwest = { version = "*", default-features = false, features = ["json"] }
serde = { version = "*", features = ["derive"] }
serde_json = "*"
toml = "*"
eyre = "*"
log = "*"
futures = "*"
chrono = "*"
anstream = "*"
anstyle = "*"
dotenvy = "*"
