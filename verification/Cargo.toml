[package]
name = "dexrs"
version = "0.1.2"
edition = "2021"
publish = false

[dependencies]
anyhow = "*"
base64 = "*"
clap = { version = "*", features = ["derive"] }
clap_complete = "*"
fs4 = "*"
serde = { version = "*", features = ["derive"] }
serde_json = "*"
sha2 = "*"
tempfile = "*"
time = { version = "*", features = ["formatting", "parsing"] }
toml = "*"
ureq = { version = "*", features = ["json"] }
