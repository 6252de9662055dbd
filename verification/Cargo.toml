[package]
name = "admin_editor"
version = "0.1.0"
edition = "2021"
publish = false

[dependencies]
uuid = { version = "1", features = ["v4"] }
regex = "1"
scraper = "*"
getrandom = "0.2"
serde = { version = "1", features = ["derive"] }
serde_json = "1"
