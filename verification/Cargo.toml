[package]
name = "proton_drive_sync"
version = "0.1.0"
edition = "2021"
publish = false

[dependencies]
glob = "0.3"
mime_guess = "2"
serde = { version = "1", features = ["derive"] }
serde_json = "1"
chrono = "0.4"
clap = { version = "4", features = ["derive"] }
notify = "*"
walkdir = "2"
dirs = "*"
hex = "0.4"
sha2 = "0.10"
bcrypt = "*"
rand = "0.8"
reqwest = { version = "0.12", default-features = false, features = ["blocking", "json", "multipart", "rustls-tls"] }
