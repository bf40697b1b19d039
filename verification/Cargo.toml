[package]
name = "stupiddb"
version = "0.1.0"
edition = "2021"
publish = false

[dependencies]
git2 = "*"
serde = { version = "*", features = ["derive"] }
serde_json = "*"
confy = "*"
uuid = { version = "*", features = ["v4"] }
