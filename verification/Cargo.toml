[package]
name = "rm_server_sync"
version = "0.1.0"
edition = "2021"
publish = false

[dependencies]
pbkdf2 = "0.12"
sha2 = "0.10"
subtle = "2"
rand = "0.8"
serde_json = "1"
clap = { version = "4", features = ["derive"] }
reqwest = { version = "0.12", default-features = false, features = ["blocking", "json"] }
