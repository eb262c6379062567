[package]
name = "warp_ssh"
version = "0.1.0"
edition = "2021"
publish = false

[dependencies]
dirs = "*"
glob = "0.3"
log = "0.4"
serde = { version = "1", features = ["derive"] }
thiserror = "*"
toml = "*"

[dev-dependencies]
serde_json = "1"
