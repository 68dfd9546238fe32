[package]
name = "akbox"
version = "0.1.0"
edition = "2021"
publish = false

[dependencies]
hmac = "0.12"
sha2 = "0.10"
md5 = "0.7"
serde = { version = "1", features = ["derive"] }
serde_json = "1"
time = { version = "0.3", features = ["formatting"] }
image = { version = "0.25", default-features = false, features = ["png"] }
thiserror = "2"
toml = "0.8"
tracing = "0.1"
reqwest = { version = "0.12", default-features = false, features = ["blocking"] }
rusqlite = { version = "*", features = ["bundled"] }
rusqlite_migration = "*"
scraper = "*"
