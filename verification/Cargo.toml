[package]
name = "astrolaunch"
version = "0.1.0"
edition = "2021"
publish = false

[dependencies]
strsim = "0.11"
urlencoding = "2"
chrono = { version = "0.4", default-features = false, features = ["clock", "std"] }
walkdir = "2"
arboard = { version = "3", default-features = false }
meval = "0.2"
once_cell = "1"
reqwest = { version = "0.12", default-features = false, features = ["json", "rustls-tls"] }
serde = { version = "1", features = ["derive"] }
serde_json = "1"
