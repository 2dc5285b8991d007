[package]
name = "paira_shell"
version = "0.1.0"
edition = "2021"
publish = false

[dependencies]
sha2 = "*"
dirs = "*"
chrono = "*"
serde_json = "*"
reqwest = { version = "*", default-features = false, features = ["blocking", "json"] }
