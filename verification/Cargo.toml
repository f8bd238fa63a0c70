[package]
name = "unjar"
version = "0.1.0"
edition = "2021"
publish = false

[dependencies]
aes = "*"
cbc = { version = "*", features = ["alloc"] }
pbkdf2 = "*"
sha1 = "*"
sha2 = "*"
serde_json = "*"
serde = { version = "*", features = ["derive"] }
rusqlite = { version = "*", features = ["bundled"] }
dirs = "*"
clap = { version = "*", features = ["derive"] }
comfy-table = "*"
