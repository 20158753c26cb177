[package]
name = "tg_sync"
version = "0.1.0"
edition = "2021"
publish = false

[dependencies]
anyhow = "=1.0.104"
async-trait = "=0.1.92"
chrono = "=0.4.45"
crossterm = "=0.29.0"
csv = "=1.4.0"
dotenv = "=0.15.0"
figlet-rs = "=1.0.0"
grammers-client = "=0.7.0"
grammers-session = "=0.7.0"
inquire = "=0.9.4"
libsql = "=0.9.30"
reqwest = { version = "=0.12.28", default-features = false, features = ["json", "rustls-tls"] }
serde = { version = "=1.0.229", features = ["derive"] }
serde_json = "=1.0.151"
thiserror = "=1.0.69"
tokio = { version = "=1.53.2", features = ["rt-multi-thread", "macros", "sync", "time", "fs"] }
tracing = "=0.1.44"
tracing-subscriber = { version = "=0.3.23", features = ["env-filter"] }
