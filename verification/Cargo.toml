[package]
name = "cloudflareddns"
version = "0.1.0"
edition = "2021"
publish = false

[dependencies]
serde_json = "=1.0.151"
argh = "*"
cloudflare = { version = "=0.14.0", default-features = false, features = ["blocking"] }
crossbeam-channel = "*"
ctrlc = "*"
env_logger = "*"
log = "*"
reqwest = { version = "*", default-features = false, features = ["blocking"] }
