[package]
name = "sorta"
version = "0.1.0"
edition = "2021"
publish = false

[dependencies]
unicode-normalization = "=0.1.26"
base64 = "=0.22.1"
serde = { version = "=1.0.229", features = ["derive"] }
serde_json = "=1.0.154"
thiserror = "=1.0.69"
chrono = "=0.4.45"
uuid = { version = "=1.29.0", features = ["v4"] }
which = "=6.0.3"
tracing = "=0.1.44"
tokio = { version = "=1.54.1", features = ["macros", "rt-multi-thread", "sync", "process", "io-util", "time", "fs"] }
sqlx = { version = "=0.8.6", default-features = false, features = ["sqlite", "runtime-tokio", "migrate"] }
reqwest = { version = "=0.12.28", default-features = false, features = ["json", "rustls-tls"] }
notify = "=6.1.1"
notify-debouncer-full = "=0.3.2"
regex = "1"
