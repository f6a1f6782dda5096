[package]
name = "workspace_links"
version = "0.1.0"
edition = "2021"
publish = false

[dependencies]
clap = { version = "*", features = ["derive"] }
clap-verbosity-flag = "*"
env_logger = "*"
log = "*"
path-absolutize = "*"
serde = { version = "*", features = ["derive"] }
serde_json = "*"
