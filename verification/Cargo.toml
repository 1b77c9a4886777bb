[package]
name = "clipboard_replacer"
version = "0.1.0"
edition = "2021"
publish = false

[dependencies]
regex = "1"
arboard = { version = "3", default-features = false }
chrono = "0.4"
minreq = { version = "2", features = ["https"] }
serde = { version = "1", features = ["derive"] }
toml = "0.8"
