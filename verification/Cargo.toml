[package]
name = "nodepilot"
version = "0.1.0"
edition = "2021"
publish = false

[dependencies]
serde = { version = "1", features = ["derive"] }
serde_json = "1"
plist = "1"
dirs = "5"
flate2 = "1"
tar = "0.4"
zip = { version = "2", default-features = false, features = ["deflate"] }
reqwest = { version = "0.12", default-features = false, features = ["rustls-tls"] }
tokio = { version = "1", features = ["rt-multi-thread", "macros", "process", "io-util", "time"] }
log = "0.4"
image = { version = "0.24", default-features = false, features = ["png"] }
imageproc = "0.23"
rusttype = "0.9"
winreg = "0.52"
