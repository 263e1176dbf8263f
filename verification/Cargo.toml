[package]
name = "stark"
version = "0.1.0"
edition = "2021"
publish = false

[dependencies]
serde = { version = "=1.0.229", features = ["derive"] }
serde_json = "=1.0.154"
rusqlite = { version = "=0.41.1", features = ["bundled"] }
thiserror = "=2.0.21"
time = { version = "=0.3.55", features = ["formatting"] }
async-trait = "=0.1.92"
reqwest = { version = "=0.12.28", default-features = false, features = ["json", "rustls-tls"] }
keyring = "=4.2.0"
tokio = { version = "=1.54.1", features = ["rt", "net", "time"] }
